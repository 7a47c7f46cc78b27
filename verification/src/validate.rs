//! The reference resolver / validator: a pure pass over the whole schema that
//! collects every referential-integrity and well-formedness defect in one
//! list, never short-circuiting on the first.
//!
//! The checks, each independent:
//! - every type restriction's subject type resolves in the schema;
//! - no name is both a relation and a permission on one type;
//! - every unary expression's name resolves on its enclosing type;
//! - every hierarchical expression's source relation resolves on its enclosing
//!   type and carries at least one type restriction;
//! - every hierarchical expression's target relation resolves on each of the
//!   source relation's restricted types (skipped for a restricted type that
//!   does not resolve at all: that defect is already reported on its own);
//! - no permission's expression names, without crossing a type boundary, the
//!   permission itself.

use vstd::prelude::*;
use crate::schema::{
    HierarchicalExpression, Permission, PermissionExpression, Relation, RelationTypeRestriction,
    Schema, SetExpression, TypeDefinition, find_relation, find_type, is_predicate,
    spec_find_relation, spec_find_type, spec_has_type, spec_is_permission, spec_is_predicate,
};

verus! {

/// One schema defect. `on_type` names the type on which resolution failed.
#[derive(Debug, PartialEq, Eq)]
pub enum SchemaError {
    /// A type restriction names `subject_type`, which the schema does not
    /// define.
    UnknownType { on_type: String, relation: String, subject_type: String },
    /// A permission expression names `name`, which resolves to neither a
    /// relation nor a permission on `on_type`.
    UnknownRelationOrPermission { on_type: String, permission: String, name: String },
    /// A hierarchical expression's source relation has no type restriction, so
    /// no rule could be generated for it.
    UnrestrictedHierarchicalSource { on_type: String, permission: String, source_relation: String },
    /// One name is both a relation and a permission on the same type.
    NameCollision { on_type: String, name: String },
    /// A permission's expression names the permission itself without crossing
    /// a type boundary.
    Cycle { on_type: String, permission: String },
}

/// Whether the expression names `name` as a predicate of its own type: the
/// zero-step self-references that the cycle check rejects. A hierarchical
/// expression checks its target on another type and its source among the
/// relations, so it never contributes.
pub open spec fn expr_mentions(e: PermissionExpression, name: Seq<char>) -> bool
    decreases e, 1int,
{
    match e {
        PermissionExpression::UnaryExpression(n) => n@ == name,
        PermissionExpression::HierarchicalExpression(_) => false,
        PermissionExpression::SetExpression(se) => {
            match se {
                SetExpression::Union(ops) => exprs_mention_from(ops@, name, 0),
                SetExpression::Intersection(ops) => exprs_mention_from(ops@, name, 0),
            }
        },
    }
}

/// Whether some operand at or after index `i` mentions `name`.
pub open spec fn exprs_mention_from(ops: Seq<PermissionExpression>, name: Seq<char>, i: int) -> bool
    decreases ops, ops.len() - i,
{
    if i < 0 || i >= ops.len() {
        false
    } else {
        expr_mentions(ops[i], name) || exprs_mention_from(ops, name, i + 1)
    }
}

/// The `UnknownType` errors of one relation's restrictions at or after `k`.
pub open spec fn restriction_errors_from(
    s: Schema,
    td: TypeDefinition,
    rel: Relation,
    k: int,
) -> Seq<SchemaError>
    decreases rel.type_restrictions@.len() - k,
{
    if k < 0 || k >= rel.type_restrictions@.len() {
        Seq::empty()
    } else {
        (if spec_has_type(s, rel.type_restrictions@[k].subject_type@) {
            Seq::empty()
        } else {
            seq![
                SchemaError::UnknownType {
                    on_type: td.name,
                    relation: rel.name,
                    subject_type: rel.type_restrictions@[k].subject_type,
                },
            ]
        }) + restriction_errors_from(s, td, rel, k + 1)
    }
}

/// The `UnknownType` errors of the type's relations at or after `j`.
pub open spec fn relation_errors_from(s: Schema, td: TypeDefinition, j: int) -> Seq<SchemaError>
    decreases td.relations@.len() - j,
{
    if j < 0 || j >= td.relations@.len() {
        Seq::empty()
    } else {
        restriction_errors_from(s, td, td.relations@[j], 0) + relation_errors_from(s, td, j + 1)
    }
}

/// The `NameCollision` errors of the type's relations at or after `j`.
pub open spec fn collision_errors_from(td: TypeDefinition, j: int) -> Seq<SchemaError>
    decreases td.relations@.len() - j,
{
    if j < 0 || j >= td.relations@.len() {
        Seq::empty()
    } else {
        (if spec_is_permission(td, td.relations@[j].name@) {
            seq![SchemaError::NameCollision { on_type: td.name, name: td.relations@[j].name }]
        } else {
            Seq::empty()
        }) + collision_errors_from(td, j + 1)
    }
}

/// The errors of a hierarchical expression's target relation on the restricted
/// types at or after `k`: the target must resolve, as a relation or a
/// permission, on each restricted type that itself resolves.
pub open spec fn target_errors_from(
    s: Schema,
    perm_name: String,
    h: HierarchicalExpression,
    rs: Seq<RelationTypeRestriction>,
    k: int,
) -> Seq<SchemaError>
    decreases rs.len() - k,
{
    if k < 0 || k >= rs.len() {
        Seq::empty()
    } else {
        (match spec_find_type(s, rs[k].subject_type@) {
            None => Seq::empty(),
            Some(target_td) => {
                if spec_is_predicate(target_td, h.target_relation@) {
                    Seq::empty()
                } else {
                    seq![
                        SchemaError::UnknownRelationOrPermission {
                            on_type: rs[k].subject_type,
                            permission: perm_name,
                            name: h.target_relation,
                        },
                    ]
                }
            },
        }) + target_errors_from(s, perm_name, h, rs, k + 1)
    }
}

/// The errors of one permission expression, collected in pre-order.
pub open spec fn expr_errors(
    s: Schema,
    td: TypeDefinition,
    perm_name: String,
    e: PermissionExpression,
) -> Seq<SchemaError>
    decreases e, 1int,
{
    match e {
        PermissionExpression::UnaryExpression(name) => {
            if spec_is_predicate(td, name@) {
                Seq::empty()
            } else {
                seq![
                    SchemaError::UnknownRelationOrPermission {
                        on_type: td.name,
                        permission: perm_name,
                        name: name,
                    },
                ]
            }
        },
        PermissionExpression::HierarchicalExpression(h) => {
            match spec_find_relation(td, h.source_relation@) {
                None => seq![
                    SchemaError::UnknownRelationOrPermission {
                        on_type: td.name,
                        permission: perm_name,
                        name: h.source_relation,
                    },
                ],
                Some(rel) => {
                    if rel.type_restrictions@.len() == 0 {
                        seq![
                            SchemaError::UnrestrictedHierarchicalSource {
                                on_type: td.name,
                                permission: perm_name,
                                source_relation: h.source_relation,
                            },
                        ]
                    } else {
                        target_errors_from(s, perm_name, h, rel.type_restrictions@, 0)
                    }
                },
            }
        },
        PermissionExpression::SetExpression(se) => {
            match se {
                SetExpression::Union(ops) => exprs_errors_from(s, td, perm_name, ops@, 0),
                SetExpression::Intersection(ops) => exprs_errors_from(s, td, perm_name, ops@, 0),
            }
        },
    }
}

/// The errors of the operands at or after index `i`, in operand order.
pub open spec fn exprs_errors_from(
    s: Schema,
    td: TypeDefinition,
    perm_name: String,
    ops: Seq<PermissionExpression>,
    i: int,
) -> Seq<SchemaError>
    decreases ops, ops.len() - i,
{
    if i < 0 || i >= ops.len() {
        Seq::empty()
    } else {
        expr_errors(s, td, perm_name, ops[i]) + exprs_errors_from(s, td, perm_name, ops, i + 1)
    }
}

/// The errors of one permission: a cycle diagnostic first, then the expression
/// walk.
pub open spec fn permission_errors(s: Schema, td: TypeDefinition, p: Permission) -> Seq<
    SchemaError,
> {
    (if expr_mentions(p.expression, p.name@) {
        seq![SchemaError::Cycle { on_type: td.name, permission: p.name }]
    } else {
        Seq::empty()
    }) + expr_errors(s, td, p.name, p.expression)
}

/// The errors of the type's permissions at or after `j`.
pub open spec fn permissions_errors_from(s: Schema, td: TypeDefinition, j: int) -> Seq<SchemaError>
    decreases td.permissions@.len() - j,
{
    if j < 0 || j >= td.permissions@.len() {
        Seq::empty()
    } else {
        permission_errors(s, td, td.permissions@[j]) + permissions_errors_from(s, td, j + 1)
    }
}

/// The errors of one type: restriction checks, then name collisions, then the
/// permission walks.
pub open spec fn type_errors(s: Schema, td: TypeDefinition) -> Seq<SchemaError> {
    relation_errors_from(s, td, 0) + collision_errors_from(td, 0) + permissions_errors_from(
        s,
        td,
        0,
    )
}

/// The errors of the types at or after `i`, in schema order.
pub open spec fn validate_from(s: Schema, i: int) -> Seq<SchemaError>
    decreases s.type_definitions@.len() - i,
{
    if i < 0 || i >= s.type_definitions@.len() {
        Seq::empty()
    } else {
        type_errors(s, s.type_definitions@[i]) + validate_from(s, i + 1)
    }
}

/// The complete, exhaustive diagnostic list of a schema, in schema order. An
/// empty result means the schema is well-formed.
pub open spec fn spec_validate(s: Schema) -> Seq<SchemaError> {
    validate_from(s, 0)
}

/// Validates the whole schema and returns every defect found, in schema order;
/// an empty result means the schema is well-formed. Pure analysis: the schema
/// is not changed.
pub fn validate(s: &Schema) -> (errors: Vec<SchemaError>)
    ensures
        errors@ == spec_validate(*s),
{
    let mut errors: Vec<SchemaError> = Vec::new();
    let n = s.type_definitions.len();
    proof {
        assert(errors@ + validate_from(*s, 0) =~= validate_from(*s, 0));
    }
    for i in 0..n
        invariant
            n == s.type_definitions@.len(),
            validate_from(*s, 0) == errors@ + validate_from(*s, i as int),
    {
        let mut te = check_type(s, &s.type_definitions[i]);
        proof {
            assert((errors@ + te@) + validate_from(*s, i + 1) =~= errors@ + (te@ + validate_from(
                *s,
                i + 1,
            )));
        }
        errors.append(&mut te);
    }
    proof {
        assert(errors@ + validate_from(*s, n as int) =~= errors@);
    }
    errors
}

/// Collects the errors of one type.
#[verifier::loop_isolation(false)]
fn check_type(s: &Schema, td: &TypeDefinition) -> (errors: Vec<SchemaError>)
    ensures
        errors@ == type_errors(*s, *td),
{
    let mut errors: Vec<SchemaError> = Vec::new();
    let rn = td.relations.len();
    proof {
        assert(errors@ + relation_errors_from(*s, *td, 0) =~= relation_errors_from(*s, *td, 0));
    }
    for j in 0..rn
        invariant
            relation_errors_from(*s, *td, 0) == errors@ + relation_errors_from(*s, *td, j as int),
    {
        let mut re = check_restrictions(s, td, &td.relations[j]);
        proof {
            assert((errors@ + re@) + relation_errors_from(*s, *td, j + 1) =~= errors@ + (re@
                + relation_errors_from(*s, *td, j + 1)));
        }
        errors.append(&mut re);
    }
    proof {
        assert(errors@ + relation_errors_from(*s, *td, rn as int) =~= errors@);
        assert(errors@ + collision_errors_from(*td, 0) =~= relation_errors_from(*s, *td, 0)
            + collision_errors_from(*td, 0));
    }
    let ghost base = errors@;
    for j in 0..rn
        invariant
            base == relation_errors_from(*s, *td, 0),
            base + collision_errors_from(*td, 0) == errors@ + collision_errors_from(
                *td,
                j as int,
            ),
    {
        if find_permission_exists(td, &td.relations[j].name) {
            let err = SchemaError::NameCollision {
                on_type: td.name.clone(),
                name: td.relations[j].name.clone(),
            };
            proof {
                assert(errors@.push(err) + collision_errors_from(*td, j + 1) =~= errors@ + (seq![
                    SchemaError::NameCollision { on_type: td.name, name: td.relations@[j as int].name },
                ] + collision_errors_from(*td, j + 1)));
            }
            errors.push(err);
        } else {
            proof {
                assert(errors@ + collision_errors_from(*td, j + 1) =~= errors@ + (
                Seq::<SchemaError>::empty() + collision_errors_from(*td, j + 1)));
            }
        }
    }
    proof {
        assert(errors@ + collision_errors_from(*td, rn as int) =~= errors@);
        assert(errors@ + permissions_errors_from(*s, *td, 0) =~= (relation_errors_from(*s, *td, 0)
            + collision_errors_from(*td, 0)) + permissions_errors_from(*s, *td, 0));
    }
    let ghost base2 = errors@;
    let pn = td.permissions.len();
    for j in 0..pn
        invariant
            base2 == relation_errors_from(*s, *td, 0) + collision_errors_from(*td, 0),
            base2 + permissions_errors_from(*s, *td, 0) == errors@ + permissions_errors_from(
                *s,
                *td,
                j as int,
            ),
    {
        let mut pe = check_permission(s, td, &td.permissions[j]);
        proof {
            assert((errors@ + pe@) + permissions_errors_from(*s, *td, j + 1) =~= errors@ + (pe@
                + permissions_errors_from(*s, *td, j + 1)));
        }
        errors.append(&mut pe);
    }
    proof {
        assert(errors@ + permissions_errors_from(*s, *td, pn as int) =~= errors@);
        assert(type_errors(*s, *td) == (relation_errors_from(*s, *td, 0) + collision_errors_from(
            *td,
            0,
        )) + permissions_errors_from(*s, *td, 0));
    }
    errors
}

/// Whether the type defines a permission named `name`.
fn find_permission_exists(td: &TypeDefinition, name: &String) -> (r: bool)
    ensures
        r == spec_is_permission(*td, name@),
{
    crate::schema::find_permission(td, name).is_some()
}

/// Collects the `UnknownType` errors of one relation's restrictions.
#[verifier::loop_isolation(false)]
fn check_restrictions(s: &Schema, td: &TypeDefinition, rel: &Relation) -> (errors: Vec<SchemaError>)
    ensures
        errors@ == restriction_errors_from(*s, *td, *rel, 0),
{
    let mut errors: Vec<SchemaError> = Vec::new();
    let kn = rel.type_restrictions.len();
    proof {
        assert(errors@ + restriction_errors_from(*s, *td, *rel, 0) =~= restriction_errors_from(
            *s,
            *td,
            *rel,
            0,
        ));
    }
    for k in 0..kn
        invariant
            restriction_errors_from(*s, *td, *rel, 0) == errors@ + restriction_errors_from(
                *s,
                *td,
                *rel,
                k as int,
            ),
    {
        if find_type(s, &rel.type_restrictions[k].subject_type).is_none() {
            let err = SchemaError::UnknownType {
                on_type: td.name.clone(),
                relation: rel.name.clone(),
                subject_type: rel.type_restrictions[k].subject_type.clone(),
            };
            proof {
                assert(errors@.push(err) + restriction_errors_from(*s, *td, *rel, k + 1) =~= errors@
                    + (seq![
                    SchemaError::UnknownType {
                        on_type: td.name,
                        relation: rel.name,
                        subject_type: rel.type_restrictions@[k as int].subject_type,
                    },
                ] + restriction_errors_from(*s, *td, *rel, k + 1)));
            }
            errors.push(err);
        } else {
            proof {
                assert(errors@ + restriction_errors_from(*s, *td, *rel, k + 1) =~= errors@ + (
                Seq::<SchemaError>::empty() + restriction_errors_from(*s, *td, *rel, k + 1)));
            }
        }
    }
    proof {
        assert(errors@ + restriction_errors_from(*s, *td, *rel, kn as int) =~= errors@);
    }
    errors
}

/// Collects the errors of one permission: a cycle diagnostic first, then the
/// expression walk.
fn check_permission(s: &Schema, td: &TypeDefinition, p: &Permission) -> (errors: Vec<SchemaError>)
    ensures
        errors@ == permission_errors(*s, *td, *p),
{
    let mut errors: Vec<SchemaError> = Vec::new();
    if mentions(&p.expression, &p.name) {
        errors.push(
            SchemaError::Cycle { on_type: td.name.clone(), permission: p.name.clone() },
        );
    }
    let mut ee = check_expr(s, td, &p.name, &p.expression);
    proof {
        assert(errors@ + ee@ =~= permission_errors(*s, *td, *p));
    }
    errors.append(&mut ee);
    errors
}

/// Whether the expression names `name` as a predicate of its own type.
#[verifier::loop_isolation(false)]
fn mentions(e: &PermissionExpression, name: &String) -> (r: bool)
    ensures
        r == expr_mentions(*e, name@),
    decreases *e, 1int,
{
    match e {
        PermissionExpression::UnaryExpression(n) => *n == *name,
        PermissionExpression::HierarchicalExpression(_) => false,
        PermissionExpression::SetExpression(se) => {
            let ops = match se {
                SetExpression::Union(ops) => ops,
                SetExpression::Intersection(ops) => ops,
            };
            proof {
                assert(decreases_to!(*e => *se));
                assert(decreases_to!(*se => ops@));
            }
            let n = ops.len();
            for i in 0..n
                invariant
                    exprs_mention_from(ops@, name@, 0) == exprs_mention_from(
                        ops@,
                        name@,
                        i as int,
                    ),
            {
                proof {
                    assert(decreases_to!(ops@ => ops@[i as int]));
                }
                if mentions(&ops[i], name) {
                    return true;
                }
            }
            false
        },
    }
}

/// Collects the errors of one expression, in pre-order.
#[verifier::loop_isolation(false)]
fn check_expr(
    s: &Schema,
    td: &TypeDefinition,
    perm_name: &String,
    e: &PermissionExpression,
) -> (errors: Vec<SchemaError>)
    ensures
        errors@ == expr_errors(*s, *td, *perm_name, *e),
    decreases *e, 1int,
{
    let mut errors: Vec<SchemaError> = Vec::new();
    match e {
        PermissionExpression::UnaryExpression(name) => {
            if !is_predicate(td, name) {
                errors.push(
                    SchemaError::UnknownRelationOrPermission {
                        on_type: td.name.clone(),
                        permission: perm_name.clone(),
                        name: name.clone(),
                    },
                );
                proof {
                    assert(errors@ =~= expr_errors(*s, *td, *perm_name, *e));
                }
            }
        },
        PermissionExpression::HierarchicalExpression(h) => {
            match find_relation(td, &h.source_relation) {
                None => {
                    errors.push(
                        SchemaError::UnknownRelationOrPermission {
                            on_type: td.name.clone(),
                            permission: perm_name.clone(),
                            name: h.source_relation.clone(),
                        },
                    );
                    proof {
                        assert(errors@ =~= expr_errors(*s, *td, *perm_name, *e));
                    }
                },
                Some(rel) => {
                    if rel.type_restrictions.len() == 0 {
                        errors.push(
                            SchemaError::UnrestrictedHierarchicalSource {
                                on_type: td.name.clone(),
                                permission: perm_name.clone(),
                                source_relation: h.source_relation.clone(),
                            },
                        );
                        proof {
                            assert(errors@ =~= expr_errors(*s, *td, *perm_name, *e));
                        }
                    } else {
                        let ghost rsv = rel.type_restrictions@;
                        let kn = rel.type_restrictions.len();
                        proof {
                            assert(errors@ + target_errors_from(*s, *perm_name, *h, rsv, 0)
                                =~= target_errors_from(*s, *perm_name, *h, rsv, 0));
                        }
                        for k in 0..kn
                            invariant
                                target_errors_from(*s, *perm_name, *h, rsv, 0) == errors@
                                    + target_errors_from(*s, *perm_name, *h, rsv, k as int),
                        {
                            match find_type(s, &rel.type_restrictions[k].subject_type) {
                                None => {
                                    proof {
                                        assert(errors@ + target_errors_from(
                                            *s,
                                            *perm_name,
                                            *h,
                                            rsv,
                                            k + 1,
                                        ) =~= errors@ + (Seq::<SchemaError>::empty()
                                            + target_errors_from(*s, *perm_name, *h, rsv, k + 1)));
                                    }
                                },
                                Some(target_td) => {
                                    if !is_predicate(target_td, &h.target_relation) {
                                        let err = SchemaError::UnknownRelationOrPermission {
                                            on_type: rel.type_restrictions[k].subject_type.clone(),
                                            permission: perm_name.clone(),
                                            name: h.target_relation.clone(),
                                        };
                                        proof {
                                            assert(errors@.push(err) + target_errors_from(
                                                *s,
                                                *perm_name,
                                                *h,
                                                rsv,
                                                k + 1,
                                            ) =~= errors@ + (seq![
                                                SchemaError::UnknownRelationOrPermission {
                                                    on_type: rsv[k as int].subject_type,
                                                    permission: *perm_name,
                                                    name: h.target_relation,
                                                },
                                            ] + target_errors_from(*s, *perm_name, *h, rsv, k + 1)));
                                        }
                                        errors.push(err);
                                    } else {
                                        proof {
                                            assert(errors@ + target_errors_from(
                                                *s,
                                                *perm_name,
                                                *h,
                                                rsv,
                                                k + 1,
                                            ) =~= errors@ + (Seq::<SchemaError>::empty()
                                                + target_errors_from(*s, *perm_name, *h, rsv, k + 1)));
                                        }
                                    }
                                },
                            }
                        }
                        proof {
                            assert(errors@ + target_errors_from(*s, *perm_name, *h, rsv, kn as int)
                                =~= errors@);
                        }
                    }
                },
            }
        },
        PermissionExpression::SetExpression(se) => {
            let ops = match se {
                SetExpression::Union(ops) => ops,
                SetExpression::Intersection(ops) => ops,
            };
            proof {
                assert(decreases_to!(*e => *se));
                assert(decreases_to!(*se => ops@));
            }
            let n = ops.len();
            proof {
                assert(errors@ + exprs_errors_from(*s, *td, *perm_name, ops@, 0)
                    =~= exprs_errors_from(*s, *td, *perm_name, ops@, 0));
            }
            for i in 0..n
                invariant
                    exprs_errors_from(*s, *td, *perm_name, ops@, 0) == errors@ + exprs_errors_from(
                        *s,
                        *td,
                        *perm_name,
                        ops@,
                        i as int,
                    ),
            {
                proof {
                    assert(decreases_to!(ops@ => ops@[i as int]));
                }
                let mut oe = check_expr(s, td, perm_name, &ops[i]);
                proof {
                    assert((errors@ + oe@) + exprs_errors_from(*s, *td, *perm_name, ops@, i + 1)
                        =~= errors@ + (oe@ + exprs_errors_from(*s, *td, *perm_name, ops@, i + 1)));
                }
                errors.append(&mut oe);
            }
            proof {
                assert(errors@ + exprs_errors_from(*s, *td, *perm_name, ops@, n as int)
                    =~= errors@);
            }
        },
    }
    errors
}

} // verus!
