use rebac::compile::{
    compile_schema, rules_from_permission_expression, validate_and_compile, CompileError,
};
use rebac::rule::{Atom, Rule, Term};
use rebac::schema::{
    HierarchicalExpression, Permission, PermissionExpression, Relation, RelationTypeRestriction,
    Relationship, Schema, SetExpression, TypeDefinition,
};
use rebac::validate::{validate, SchemaError};

fn restriction(subject_type: &str) -> RelationTypeRestriction {
    RelationTypeRestriction {
        subject_type: subject_type.to_string(),
        subject_relation: String::new(),
    }
}

fn relation(name: &str, subject_types: &[&str]) -> Relation {
    Relation {
        name: name.to_string(),
        type_restrictions: subject_types.iter().map(|t| restriction(t)).collect(),
    }
}

fn permission(name: &str, expression: PermissionExpression) -> Permission {
    Permission {
        name: name.to_string(),
        expression,
    }
}

fn type_def(name: &str, relations: Vec<Relation>, permissions: Vec<Permission>) -> TypeDefinition {
    TypeDefinition {
        name: name.to_string(),
        relations,
        permissions,
    }
}

fn unary(name: &str) -> PermissionExpression {
    PermissionExpression::UnaryExpression(name.to_string())
}

fn hierarchical(target: &str, source: &str) -> PermissionExpression {
    PermissionExpression::HierarchicalExpression(HierarchicalExpression {
        target_relation: target.to_string(),
        source_relation: source.to_string(),
    })
}

fn union(operands: Vec<PermissionExpression>) -> PermissionExpression {
    PermissionExpression::SetExpression(SetExpression::Union(operands))
}

fn intersection(operands: Vec<PermissionExpression>) -> PermissionExpression {
    PermissionExpression::SetExpression(SetExpression::Intersection(operands))
}

fn atom(predicate_type: &str, predicate: &str, subject_arg: Term, resource_arg: Term) -> Atom {
    Atom {
        predicate_type: predicate_type.to_string(),
        predicate: predicate.to_string(),
        subject_arg,
        resource_arg,
    }
}

/// The document/org/folder/account corner of the example schema: `document`'s
/// `parent` relation is restricted to org and folder, and `can_view` follows
/// `parent` then checks `viewer` there.
fn document_schema() -> Schema {
    Schema {
        type_definitions: vec![
            type_def("org", vec![relation("viewer", &["account"])], vec![]),
            type_def("folder", vec![relation("viewer", &["account"])], vec![]),
            type_def(
                "document",
                vec![relation("parent", &["org", "folder"])],
                vec![permission("can_view", hierarchical("viewer", "parent"))],
            ),
            type_def("account", vec![], vec![]),
        ],
    }
}

fn subreddit_type() -> TypeDefinition {
    type_def(
        "subreddit",
        vec![
            relation("moderator", &["account"]),
            relation("community_appearance_editor", &["account"]),
            relation("org", &["org"]),
        ],
        vec![
            permission(
                "can_view",
                union(vec![unary("moderator"), unary("community_appearance_editor")]),
            ),
            permission(
                "can_moderate",
                union(vec![
                    hierarchical("admin", "org"),
                    union(vec![unary("moderator"), unary("community_appearance_editor")]),
                ]),
            ),
        ],
    )
}

#[test]
fn scenario_hierarchical_document_can_view() {
    let schema = document_schema();
    let td = &schema.type_definitions[2];
    let p = &td.permissions[0];
    let rules = rules_from_permission_expression(td, p, &p.expression).unwrap();
    assert_eq!(rules.len(), 2);
    let head = atom("document", "can_view", Term::Subject, Term::Resource);
    assert_eq!(
        rules[0],
        Rule {
            head: head.clone(),
            body: vec![
                atom("org", "viewer", Term::Subject, Term::Link(0)),
                atom("document", "parent", Term::Link(0), Term::Resource),
            ],
        }
    );
    assert_eq!(
        rules[1],
        Rule {
            head,
            body: vec![
                atom("folder", "viewer", Term::Subject, Term::Link(0)),
                atom("document", "parent", Term::Link(0), Term::Resource),
            ],
        }
    );
}

#[test]
fn scenario_union_subreddit_can_view() {
    let td = subreddit_type();
    let p = &td.permissions[0];
    let rules = rules_from_permission_expression(&td, p, &p.expression).unwrap();
    assert_eq!(rules.len(), 2);
    let head = atom("subreddit", "can_view", Term::Subject, Term::Resource);
    assert_eq!(
        rules[0],
        Rule {
            head: head.clone(),
            body: vec![atom("subreddit", "moderator", Term::Subject, Term::Resource)],
        }
    );
    assert_eq!(
        rules[1],
        Rule {
            head,
            body: vec![atom(
                "subreddit",
                "community_appearance_editor",
                Term::Subject,
                Term::Resource
            )],
        }
    );
}

#[test]
fn scenario_nested_union_subreddit_can_moderate() {
    let td = subreddit_type();
    let p = &td.permissions[1];
    let rules = rules_from_permission_expression(&td, p, &p.expression).unwrap();
    // The `org` relation has one restriction, plus the two aliasing rules of
    // the nested union.
    assert_eq!(rules.len(), 1 + 2);
    let head = atom("subreddit", "can_moderate", Term::Subject, Term::Resource);
    assert_eq!(
        rules[0],
        Rule {
            head: head.clone(),
            body: vec![
                atom("org", "admin", Term::Subject, Term::Link(0)),
                atom("subreddit", "org", Term::Link(0), Term::Resource),
            ],
        }
    );
    assert_eq!(
        rules[1].body,
        vec![atom("subreddit", "moderator", Term::Subject, Term::Resource)]
    );
    assert_eq!(
        rules[2].body,
        vec![atom(
            "subreddit",
            "community_appearance_editor",
            Term::Subject,
            Term::Resource
        )]
    );
}

#[test]
fn malformed_schema_unrestricted_source_is_rejected() {
    let schema = Schema {
        type_definitions: vec![type_def(
            "document",
            vec![relation("parent", &[])],
            vec![permission("can_view", hierarchical("viewer", "parent"))],
        )],
    };
    let errors = validate(&schema);
    assert_eq!(
        errors,
        vec![SchemaError::UnrestrictedHierarchicalSource {
            on_type: "document".to_string(),
            permission: "can_view".to_string(),
            source_relation: "parent".to_string(),
        }]
    );
    // The compiler refuses to run rather than produce output.
    let td = &schema.type_definitions[0];
    let p = &td.permissions[0];
    assert_eq!(
        rules_from_permission_expression(td, p, &p.expression),
        Err(CompileError::UnsafeVariable)
    );
    assert!(validate_and_compile(&schema).is_err());
}

#[test]
fn validator_accepts_well_formed_schema() {
    assert_eq!(validate(&document_schema()), vec![]);
}

#[test]
fn validator_reports_unknown_type() {
    let schema = Schema {
        type_definitions: vec![type_def(
            "document",
            vec![relation("parent", &["ghost"])],
            vec![],
        )],
    };
    assert_eq!(
        validate(&schema),
        vec![SchemaError::UnknownType {
            on_type: "document".to_string(),
            relation: "parent".to_string(),
            subject_type: "ghost".to_string(),
        }]
    );
}

#[test]
fn validator_reports_unknown_unary_name() {
    let schema = Schema {
        type_definitions: vec![type_def(
            "document",
            vec![],
            vec![permission("can_view", unary("viewer"))],
        )],
    };
    assert_eq!(
        validate(&schema),
        vec![SchemaError::UnknownRelationOrPermission {
            on_type: "document".to_string(),
            permission: "can_view".to_string(),
            name: "viewer".to_string(),
        }]
    );
}

#[test]
fn validator_reports_unknown_hierarchical_target() {
    // `parent` resolves and is restricted to `org`, but `org` defines no
    // `viewer`, so the generated rule would reference an undefined predicate.
    let schema = Schema {
        type_definitions: vec![
            type_def("org", vec![], vec![]),
            type_def(
                "document",
                vec![relation("parent", &["org"])],
                vec![permission("can_view", hierarchical("viewer", "parent"))],
            ),
        ],
    };
    assert_eq!(
        validate(&schema),
        vec![SchemaError::UnknownRelationOrPermission {
            on_type: "org".to_string(),
            permission: "can_view".to_string(),
            name: "viewer".to_string(),
        }]
    );
}

#[test]
fn validator_reports_name_collision() {
    let schema = Schema {
        type_definitions: vec![type_def(
            "document",
            vec![relation("viewer", &["document"])],
            vec![permission("viewer", unary("viewer"))],
        )],
    };
    let errors = validate(&schema);
    assert!(errors.contains(&SchemaError::NameCollision {
        on_type: "document".to_string(),
        name: "viewer".to_string(),
    }));
}

#[test]
fn validator_reports_zero_step_cycle() {
    let schema = Schema {
        type_definitions: vec![type_def(
            "document",
            vec![],
            vec![permission("can_view", union(vec![unary("can_view")]))],
        )],
    };
    let errors = validate(&schema);
    assert!(errors.contains(&SchemaError::Cycle {
        on_type: "document".to_string(),
        permission: "can_view".to_string(),
    }));
}

#[test]
fn validator_collects_every_defect_in_one_pass() {
    // Two independent defects: an unknown restriction type and an unknown
    // unary name. Both are reported.
    let schema = Schema {
        type_definitions: vec![type_def(
            "document",
            vec![relation("parent", &["ghost"])],
            vec![permission("can_view", unary("viewer"))],
        )],
    };
    let errors = validate(&schema);
    assert_eq!(errors.len(), 2);
    assert!(matches!(errors[0], SchemaError::UnknownType { .. }));
    assert!(matches!(
        errors[1],
        SchemaError::UnknownRelationOrPermission { .. }
    ));
}

#[test]
fn compile_rejects_unresolved_unary_reference() {
    let td = type_def("document", vec![], vec![permission("can_view", unary("viewer"))]);
    let p = &td.permissions[0];
    assert_eq!(
        rules_from_permission_expression(&td, p, &p.expression),
        Err(CompileError::UnresolvedReference)
    );
}

#[test]
fn compile_rejects_unresolved_hierarchical_source() {
    let td = type_def(
        "document",
        vec![],
        vec![permission("can_view", hierarchical("viewer", "parent"))],
    );
    let p = &td.permissions[0];
    assert_eq!(
        rules_from_permission_expression(&td, p, &p.expression),
        Err(CompileError::UnresolvedReference)
    );
}

#[test]
fn compile_rejects_empty_intersection() {
    let td = type_def(
        "document",
        vec![],
        vec![permission("can_view", intersection(vec![]))],
    );
    let p = &td.permissions[0];
    assert_eq!(
        rules_from_permission_expression(&td, p, &p.expression),
        Err(CompileError::InconsistentIntersectionArity)
    );
}

#[test]
fn union_error_in_one_operand_fails_the_permission() {
    let td = type_def(
        "document",
        vec![relation("owner", &["account"])],
        vec![permission(
            "can_view",
            union(vec![unary("owner"), unary("ghost")]),
        )],
    );
    let p = &td.permissions[0];
    assert_eq!(
        rules_from_permission_expression(&td, p, &p.expression),
        Err(CompileError::UnresolvedReference)
    );
}

#[test]
fn intersection_of_two_unaries_conjoins_their_atoms() {
    let td = type_def(
        "document",
        vec![relation("owner", &["account"]), relation("editor", &["account"])],
        vec![permission(
            "can_edit",
            intersection(vec![unary("owner"), unary("editor")]),
        )],
    );
    let p = &td.permissions[0];
    let rules = rules_from_permission_expression(&td, p, &p.expression).unwrap();
    assert_eq!(rules.len(), 1);
    assert_eq!(
        rules[0],
        Rule {
            head: atom("document", "can_edit", Term::Subject, Term::Resource),
            body: vec![
                atom("document", "owner", Term::Subject, Term::Resource),
                atom("document", "editor", Term::Subject, Term::Resource),
            ],
        }
    );
}

#[test]
fn intersection_distributes_over_alternatives_and_renumbers_links() {
    // Both operands follow `parent`, restricted to org and folder: the
    // intersection distributes AND over OR into 2 x 2 conjoined rules, and the
    // second operand's link variable is renumbered past the first's body.
    let td = type_def(
        "document",
        vec![relation("parent", &["org", "folder"])],
        vec![permission(
            "can_audit",
            intersection(vec![
                hierarchical("viewer", "parent"),
                hierarchical("editor", "parent"),
            ]),
        )],
    );
    let p = &td.permissions[0];
    let rules = rules_from_permission_expression(&td, p, &p.expression).unwrap();
    assert_eq!(rules.len(), 4);
    let head = atom("document", "can_audit", Term::Subject, Term::Resource);
    let expected_first = Rule {
        head: head.clone(),
        body: vec![
            atom("org", "viewer", Term::Subject, Term::Link(0)),
            atom("document", "parent", Term::Link(0), Term::Resource),
            atom("org", "editor", Term::Subject, Term::Link(2)),
            atom("document", "parent", Term::Link(2), Term::Resource),
        ],
    };
    assert_eq!(rules[0], expected_first);
    // Combinations come out first-operand-major: (org, org), (org, folder),
    // (folder, org), (folder, folder).
    assert_eq!(rules[1].body[0], atom("org", "viewer", Term::Subject, Term::Link(0)));
    assert_eq!(rules[1].body[2], atom("folder", "editor", Term::Subject, Term::Link(2)));
    assert_eq!(rules[2].body[0], atom("folder", "viewer", Term::Subject, Term::Link(0)));
    assert_eq!(rules[2].body[2], atom("org", "editor", Term::Subject, Term::Link(2)));
    assert_eq!(rules[3].body[0], atom("folder", "viewer", Term::Subject, Term::Link(0)));
    assert_eq!(rules[3].body[2], atom("folder", "editor", Term::Subject, Term::Link(2)));
}

#[test]
fn compile_schema_isolates_failures_per_permission() {
    // One sound permission and one broken one on the same type: the sound one
    // still compiles, the broken one carries its own error.
    let schema = Schema {
        type_definitions: vec![type_def(
            "document",
            vec![relation("owner", &["account"])],
            vec![
                permission("can_view", unary("owner")),
                permission("can_edit", unary("ghost")),
            ],
        )],
    };
    let compiled = compile_schema(&schema);
    assert_eq!(compiled.len(), 2);
    assert_eq!(compiled[0].resource_type, "document");
    assert_eq!(compiled[0].permission, "can_view");
    assert!(compiled[0].rules.is_ok());
    assert_eq!(compiled[1].permission, "can_edit");
    assert_eq!(compiled[1].rules, Err(CompileError::UnresolvedReference));
}

#[test]
fn validate_and_compile_accepts_the_document_schema() {
    let schema = document_schema();
    let compiled = validate_and_compile(&schema).unwrap();
    assert_eq!(compiled.len(), 1);
    assert_eq!(compiled[0].resource_type, "document");
    assert_eq!(compiled[0].permission, "can_view");
    assert_eq!(compiled[0].rules.as_ref().unwrap().len(), 2);
}

#[test]
fn validate_and_compile_refuses_a_defective_schema() {
    let schema = Schema {
        type_definitions: vec![type_def(
            "document",
            vec![relation("parent", &["ghost"])],
            vec![],
        )],
    };
    let errors = validate_and_compile(&schema).unwrap_err();
    assert_eq!(errors.len(), 1);
    assert!(matches!(errors[0], SchemaError::UnknownType { .. }));
}

#[test]
fn relationship_fact_shape() {
    // The fact tuple consumed by the downstream engine: an empty
    // subject_relation denotes a direct subject.
    let fact = Relationship {
        resource_type: "document".to_string(),
        resource_id: "readme".to_string(),
        relation: "parent".to_string(),
        subject_type: "folder".to_string(),
        subject_id: "x".to_string(),
        subject_relation: String::new(),
    };
    assert_eq!(fact.resource_type, "document");
    assert_eq!(fact.subject_relation, "");
}
