//! The structured rule representation handed to the external evaluation
//! engine: a rule is a head atom and an ordered body of atoms, and an atom is
//! a predicate (named `{type}#{name}` by any downstream renderer) applied to a
//! subject argument and a resource argument.

use vstd::prelude::*;

verus! {

/// One argument position of an atom: the designated subject or resource
/// variable of the rule's head, a compiler-generated link variable, or a
/// literal constant (reserved; this compiler never emits one).
#[derive(Debug, PartialEq, Eq)]
pub enum Term {
    Subject,
    Resource,
    Link(usize),
    Constant(String),
}

/// One predicate application: the type that defines the predicate, the
/// relation or permission name, and the two argument positions.
#[derive(Debug, PartialEq, Eq)]
pub struct Atom {
    pub predicate_type: String,
    pub predicate: String,
    pub subject_arg: Term,
    pub resource_arg: Term,
}

/// An inference rule: the head holds whenever all body atoms hold together.
#[derive(Debug, PartialEq, Eq)]
pub struct Rule {
    pub head: Atom,
    pub body: Vec<Atom>,
}

/// The mathematical model of a rule: the body as a sequence.
pub struct SpecRule {
    pub head: Atom,
    pub body: Seq<Atom>,
}

impl View for Rule {
    type V = SpecRule;

    open spec fn view(&self) -> SpecRule {
        SpecRule { head: self.head, body: self.body@ }
    }
}

impl Clone for Term {
    /// Clones a term without changing its value.
    fn clone(&self) -> (r: Term)
        ensures
            r == *self,
    {
        match self {
            Term::Subject => Term::Subject,
            Term::Resource => Term::Resource,
            Term::Link(i) => Term::Link(*i),
            Term::Constant(c) => Term::Constant(c.clone()),
        }
    }
}

impl Clone for Atom {
    /// Clones an atom without changing its value.
    fn clone(&self) -> (r: Atom)
        ensures
            r == *self,
    {
        Atom {
            predicate_type: self.predicate_type.clone(),
            predicate: self.predicate.clone(),
            subject_arg: self.subject_arg.clone(),
            resource_arg: self.resource_arg.clone(),
        }
    }
}

impl Clone for Rule {
    /// Clones a rule without changing its value.
    fn clone(&self) -> (r: Rule)
        ensures
            r@ == self@,
    {
        Rule { head: self.head.clone(), body: clone_atoms(&self.body) }
    }
}

/// Clones a vector of atoms element by element.
pub fn clone_atoms(v: &Vec<Atom>) -> (r: Vec<Atom>)
    ensures
        r@ == v@,
{
    let mut r: Vec<Atom> = Vec::new();
    let n = v.len();
    for i in 0..n
        invariant
            n == v.len(),
            r@ == v@.subrange(0, i as int),
    {
        r.push(v[i].clone());
        proof {
            assert(r@ =~= v@.subrange(0, i + 1));
        }
    }
    proof {
        assert(r@ =~= v@);
    }
    r
}

/// Whether the term is a variable (and so must be bound by the body when it
/// stands in a rule's head).
pub open spec fn is_variable(t: Term) -> bool {
    !(t is Constant)
}

/// Whether the atom mentions the term in either argument position.
pub open spec fn atom_mentions(a: Atom, t: Term) -> bool {
    a.subject_arg == t || a.resource_arg == t
}

/// Whether some atom of the body mentions the term.
pub open spec fn body_mentions(body: Seq<Atom>, t: Term) -> bool {
    exists|i: int| 0 <= i < body.len() && atom_mentions(body[i], t)
}

/// The safety condition on rules: every variable of the head reappears,
/// identically, in some body atom. A rule that fails it would leave a head
/// variable unbound, and must never be emitted.
pub open spec fn rule_safe(r: SpecRule) -> bool {
    &&& (is_variable(r.head.subject_arg) ==> body_mentions(r.body, r.head.subject_arg))
    &&& (is_variable(r.head.resource_arg) ==> body_mentions(r.body, r.head.resource_arg))
}

/// Whether every link variable of the body is numbered below the body's
/// length. The compiler keeps this invariant so that conjoining bodies can
/// renumber links without collision.
pub open spec fn body_links_bounded(body: Seq<Atom>) -> bool {
    forall|i: int|
        0 <= i < body.len() ==> #[trigger] atom_links_below(body[i], body.len() as int)
}

/// Whether every link variable of the atom is numbered below `bound`.
pub open spec fn atom_links_below(a: Atom, bound: int) -> bool {
    term_link_below(a.subject_arg, bound) && term_link_below(a.resource_arg, bound)
}

/// Whether the term, if a link variable, is numbered below `bound`.
pub open spec fn term_link_below(t: Term, bound: int) -> bool {
    match t {
        Term::Link(i) => i < bound,
        _ => true,
    }
}

/// Whether the term, if a link variable, is numbered at or above `bound`.
pub open spec fn term_link_at_least(t: Term, bound: int) -> bool {
    match t {
        Term::Link(i) => i >= bound,
        _ => true,
    }
}

} // verus!
