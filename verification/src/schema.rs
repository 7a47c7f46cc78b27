//! The schema data model: types, relations, permissions and permission
//! expression trees, together with the spec-level lookup functions that the
//! validator's and compiler's contracts are stated over.
//!
//! A schema is a mapping from type name to type definition; each type
//! definition maps relation names to relations and permission names to
//! permissions. The mappings are kept as vectors, looked up by first match.

use vstd::prelude::*;

verus! {

/// A restriction on the subjects of a relation: the subject must come from
/// type `subject_type`; when `subject_relation` is non-empty the subject set is
/// itself "everyone holding `subject_relation` on the subject" (a userset
/// rewrite), and an empty `subject_relation` denotes a direct subject.
#[derive(Debug)]
pub struct RelationTypeRestriction {
    pub subject_type: String,
    pub subject_relation: String,
}

/// A named relation with its ordered list of type restrictions.
#[derive(Debug)]
pub struct Relation {
    pub name: String,
    pub type_restrictions: Vec<RelationTypeRestriction>,
}

/// A hierarchical permission expression: follow `source_relation` to a related
/// resource, then check `target_relation` there.
#[derive(Debug)]
pub struct HierarchicalExpression {
    pub target_relation: String,
    pub source_relation: String,
}

/// The closed variant set of permission expressions.
#[derive(Debug)]
pub enum PermissionExpression {
    /// Aliases another relation or permission defined on the same type.
    UnaryExpression(String),
    /// Follows a relation to a related resource and checks a relation there.
    HierarchicalExpression(HierarchicalExpression),
    /// A union or intersection of sub-expressions.
    SetExpression(SetExpression),
}

/// A set combination of permission expressions: logical OR or logical AND.
#[derive(Debug)]
pub enum SetExpression {
    Union(Vec<PermissionExpression>),
    Intersection(Vec<PermissionExpression>),
}

/// A named permission defined by one expression tree.
#[derive(Debug)]
pub struct Permission {
    pub name: String,
    pub expression: PermissionExpression,
}

/// One type of the schema: its relations and its permissions. Relation and
/// permission names share one predicate namespace per type.
#[derive(Debug)]
pub struct TypeDefinition {
    pub name: String,
    pub relations: Vec<Relation>,
    pub permissions: Vec<Permission>,
}

/// A whole schema: the mapping from type name to type definition.
#[derive(Debug)]
pub struct Schema {
    pub type_definitions: Vec<TypeDefinition>,
}

/// A relationship fact tuple, the runtime input of the downstream evaluation
/// engine. The compiler only defines this target shape; it never produces or
/// mutates facts. An empty `subject_relation` denotes a direct subject.
#[derive(Debug)]
pub struct Relationship {
    pub resource_type: String,
    pub resource_id: String,
    pub relation: String,
    pub subject_type: String,
    pub subject_id: String,
    pub subject_relation: String,
}

/// First type definition named `name` at or after index `i`, if any.
pub open spec fn find_type_from(tds: Seq<TypeDefinition>, name: Seq<char>, i: int) -> Option<
    TypeDefinition,
>
    decreases tds.len() - i,
{
    if i < 0 || i >= tds.len() {
        None
    } else if tds[i].name@ == name {
        Some(tds[i])
    } else {
        find_type_from(tds, name, i + 1)
    }
}

/// The type definition that `name` resolves to in the schema, if any.
pub open spec fn spec_find_type(s: Schema, name: Seq<char>) -> Option<TypeDefinition> {
    find_type_from(s.type_definitions@, name, 0)
}

/// Whether the schema defines a type named `name`.
pub open spec fn spec_has_type(s: Schema, name: Seq<char>) -> bool {
    spec_find_type(s, name) is Some
}

/// First relation named `name` at or after index `i`, if any.
pub open spec fn find_relation_from(rels: Seq<Relation>, name: Seq<char>, i: int) -> Option<
    Relation,
>
    decreases rels.len() - i,
{
    if i < 0 || i >= rels.len() {
        None
    } else if rels[i].name@ == name {
        Some(rels[i])
    } else {
        find_relation_from(rels, name, i + 1)
    }
}

/// The relation that `name` resolves to on the type, if any.
pub open spec fn spec_find_relation(td: TypeDefinition, name: Seq<char>) -> Option<Relation> {
    find_relation_from(td.relations@, name, 0)
}

/// Whether the type defines a relation named `name`.
pub open spec fn spec_is_relation(td: TypeDefinition, name: Seq<char>) -> bool {
    spec_find_relation(td, name) is Some
}

/// First permission named `name` at or after index `i`, if any.
pub open spec fn find_permission_from(ps: Seq<Permission>, name: Seq<char>, i: int) -> Option<
    Permission,
>
    decreases ps.len() - i,
{
    if i < 0 || i >= ps.len() {
        None
    } else if ps[i].name@ == name {
        Some(ps[i])
    } else {
        find_permission_from(ps, name, i + 1)
    }
}

/// The permission that `name` resolves to on the type, if any.
pub open spec fn spec_find_permission(td: TypeDefinition, name: Seq<char>) -> Option<Permission> {
    find_permission_from(td.permissions@, name, 0)
}

/// Whether the type defines a permission named `name`.
pub open spec fn spec_is_permission(td: TypeDefinition, name: Seq<char>) -> bool {
    spec_find_permission(td, name) is Some
}

/// Whether `name` resolves to a relation or a permission on the type: the
/// shared predicate namespace of one type.
pub open spec fn spec_is_predicate(td: TypeDefinition, name: Seq<char>) -> bool {
    spec_is_relation(td, name) || spec_is_permission(td, name)
}

/// Looks a type up in the schema by first match.
pub fn find_type<'a>(s: &'a Schema, name: &String) -> (r: Option<&'a TypeDefinition>)
    ensures
        match r {
            Some(td) => spec_find_type(*s, name@) == Some(*td),
            None => spec_find_type(*s, name@) is None,
        },
{
    let n = s.type_definitions.len();
    for i in 0..n
        invariant
            n == s.type_definitions.len(),
            find_type_from(s.type_definitions@, name@, 0) == find_type_from(
                s.type_definitions@,
                name@,
                i as int,
            ),
    {
        if s.type_definitions[i].name == *name {
            return Some(&s.type_definitions[i]);
        }
    }
    None
}

/// Looks a relation up on a type by first match.
pub fn find_relation<'a>(td: &'a TypeDefinition, name: &String) -> (r: Option<&'a Relation>)
    ensures
        match r {
            Some(rel) => spec_find_relation(*td, name@) == Some(*rel),
            None => spec_find_relation(*td, name@) is None,
        },
{
    let n = td.relations.len();
    for i in 0..n
        invariant
            n == td.relations.len(),
            find_relation_from(td.relations@, name@, 0) == find_relation_from(
                td.relations@,
                name@,
                i as int,
            ),
    {
        if td.relations[i].name == *name {
            return Some(&td.relations[i]);
        }
    }
    None
}

/// Looks a permission up on a type by first match.
pub fn find_permission<'a>(td: &'a TypeDefinition, name: &String) -> (r: Option<&'a Permission>)
    ensures
        match r {
            Some(p) => spec_find_permission(*td, name@) == Some(*p),
            None => spec_find_permission(*td, name@) is None,
        },
{
    let n = td.permissions.len();
    for i in 0..n
        invariant
            n == td.permissions.len(),
            find_permission_from(td.permissions@, name@, 0) == find_permission_from(
                td.permissions@,
                name@,
                i as int,
            ),
    {
        if td.permissions[i].name == *name {
            return Some(&td.permissions[i]);
        }
    }
    None
}

/// Whether `name` is a relation or a permission on the type.
pub fn is_predicate(td: &TypeDefinition, name: &String) -> (r: bool)
    ensures
        r == spec_is_predicate(*td, name@),
{
    find_relation(td, name).is_some() || find_permission(td, name).is_some()
}

} // verus!
