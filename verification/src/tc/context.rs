//! The ordered context that the type checker works in.

use crate::ast::ty::{Type, TypeTree};
use crate::ast::variables::{
    free_syntactic, skolems, text_set, unifications, TypeVariableVisitor, Variables,
};
use crate::ast::Ann;
use crate::lines::same_text;
use std::rc::Rc;
use vstd::prelude::*;

verus! {

/// A type whose annotations say where it comes from.
pub type SourceType = Type<Ann>;

/// The sort of a type variable in the context.
#[derive(Debug, Clone, Copy, PartialEq, Eq, Structural)]
pub enum VariableVariant {
    Skolem,
    Syntactic,
}

/// The type of context elements.
#[derive(Debug)]
#[allow(inconsistent_fields)]
pub enum Element {
    /// Type variables in scope.
    Variable { name: String, kind: Rc<Option<SourceType>>, variant: VariableVariant },
    /// Unification variables.
    Unsolved { name: i32, kind: Rc<Option<SourceType>> },
    /// Solved unification variables.
    Solved { name: i32, kind: Rc<Option<SourceType>>, ty: Rc<SourceType> },
    /// Metasyntactic markers.
    Marker { name: String },
}

/// The context consumed by the type checker: its elements in order.
#[derive(Debug)]
pub struct Context {
    elements: Vec<Element>,
}

/// Whether `element` is the unsolved variable `name`.
pub open spec fn is_unsolved(element: Element, name: i32) -> bool {
    element matches Element::Unsolved { name: found, .. } && found == name
}

/// Whether `after` is `before`, the unsolved variable `name`, solved to
/// `ty`: of the same name and kind.
pub open spec fn solves(before: Element, after: Element, name: i32, ty: Rc<SourceType>) -> bool {
    match (before, after) {
        (
            Element::Unsolved { name: unsolved, kind: before_kind },
            Element::Solved { name: solved, kind: after_kind, ty: solution },
        ) => unsolved == name && solved == name && before_kind == after_kind && solution == ty,
        _ => false,
    }
}

/// The index of the first unsolved variable `name` among `elements`, or
/// their number where there is none.
pub open spec fn unsolved_position(elements: Seq<Element>, name: i32) -> int
    decreases elements.len(),
{
    if elements.len() == 0 {
        0
    } else if is_unsolved(elements[0], name) {
        0
    } else {
        1 + unsolved_position(elements.drop_first(), name)
    }
}

/// Whether `elements` hold the unsolved variable `name`.
pub open spec fn has_unsolved(elements: Seq<Element>, name: i32) -> bool {
    exists|i: int| 0 <= i < elements.len() && is_unsolved(#[trigger] elements[i], name)
}

/// The position is that of the first such element: within the sequence
/// where there is one, and nothing before it is the variable.
pub proof fn lemma_unsolved_position(elements: Seq<Element>, name: i32)
    ensures
        0 <= unsolved_position(elements, name) <= elements.len(),
        has_unsolved(elements, name) <==> unsolved_position(elements, name) < elements.len(),
        unsolved_position(elements, name) < elements.len() ==> is_unsolved(
            elements[unsolved_position(elements, name)],
            name,
        ),
        forall|i: int|
            0 <= i < unsolved_position(elements, name) ==> !is_unsolved(
                #[trigger] elements[i],
                name,
            ),
    decreases elements.len(),
{
    if elements.len() > 0 && !is_unsolved(elements[0], name) {
        let rest = elements.drop_first();
        lemma_unsolved_position(rest, name);
        if has_unsolved(elements, name) {
            let i = choose|i: int| 0 <= i < elements.len() && is_unsolved(#[trigger] elements[i], name);
            assert(is_unsolved(rest[i - 1], name));
        }
        if unsolved_position(rest, name) < rest.len() {
            assert(is_unsolved(elements[unsolved_position(rest, name) + 1], name));
        }
        assert forall|i: int| 0 <= i < unsolved_position(elements, name) implies !is_unsolved(
            #[trigger] elements[i],
            name,
        ) by {
            if i > 0 {
                assert(elements[i] == rest[i - 1]);
            }
        }
    }
}

impl View for Context {
    type V = Seq<Element>;

    closed spec fn view(&self) -> Seq<Element> {
        self.elements@
    }
}

impl Default for Context {
    fn default() -> (context: Context)
        ensures
            context@ == Seq::<Element>::empty(),
    {
        Context { elements: Vec::new() }
    }
}

impl Context {
    /// A context of the given elements.
    pub fn from_elements(elements: Vec<Element>) -> (context: Context)
        ensures
            context@ == elements@,
    {
        Context { elements }
    }

    /// The elements, in order.
    pub fn elements(&self) -> (elements: &Vec<Element>)
        ensures
            elements@ == self@,
    {
        &self.elements
    }

    /// Determines the index and kind of an unsolved variable, which has to
    /// be in the context.
    pub fn unsafe_unsolved_position(&self, expected_name: i32) -> (found: (
        usize,
        Rc<Option<SourceType>>,
    ))
        requires
            has_unsolved(self@, expected_name),
        ensures
            found.0 == unsolved_position(self@, expected_name),
            found.0 < self@.len(),
            self@[found.0 as int] matches Element::Unsolved { name, kind } && name == expected_name
                && kind == found.1,
    {
        let mut index: usize = 0;
        proof {
            lemma_unsolved_position(self@, expected_name);
            assert(self@.skip(0) =~= self@);
        }
        loop
            invariant
                0 <= index < self.elements.len(),
                self@ == self.elements@,
                unsolved_position(self@, expected_name) < self@.len(),
                unsolved_position(self@, expected_name) == index + unsolved_position(
                    self@.skip(index as int),
                    expected_name,
                ),
            decreases self.elements.len() - index,
        {
            proof {
                assert(self@.skip(index as int).drop_first() =~= self@.skip(index + 1));
            }
            if let Element::Unsolved { name, kind } = &self.elements[index] {
                if *name == expected_name {
                    return (index, Rc::clone(kind));
                }
            }
            proof {
                lemma_unsolved_position(self@.skip(index + 1), expected_name);
            }
            index += 1;
        }
    }

    /// Determines whether an unsolved variable appears before another. Both
    /// have to be in the context.
    pub fn unsafe_unsolved_appears_before(&self, a: i32, b: i32) -> (before: bool)
        requires
            has_unsolved(self@, a),
            has_unsolved(self@, b),
        ensures
            before == (unsolved_position(self@, a) < unsolved_position(self@, b)),
    {
        let (a, _) = self.unsafe_unsolved_position(a);
        let (b, _) = self.unsafe_unsolved_position(b);
        a < b
    }

    /// Replaces an unsolved variable, which has to be in the context, with
    /// a solved one of the same name and kind.
    pub fn unsafe_solve(&mut self, name: i32, ty: Rc<SourceType>)
        requires
            has_unsolved(old(self)@, name),
        ensures
            final(self)@.len() == old(self)@.len(),
            forall|i: int|
                0 <= i < old(self)@.len() && i != unsolved_position(old(self)@, name)
                    ==> final(self)@[i] == old(self)@[i],
            solves(
                old(self)@[unsolved_position(old(self)@, name)],
                final(self)@[unsolved_position(old(self)@, name)],
                name,
                ty,
            ),
    {
        let (index, kind) = self.unsafe_unsolved_position(name);
        self.elements.set(index, Element::Solved { name, kind, ty });
    }

    /// Replaces an unsolved variable, which has to be in the context, with
    /// the given elements.
    pub fn unsafe_unsolved_replace(&mut self, name: i32, elements: Vec<Element>)
        requires
            has_unsolved(old(self)@, name),
        ensures
            final(self)@ == old(self)@.take(unsolved_position(old(self)@, name)) + elements@
                + old(self)@.skip(unsolved_position(old(self)@, name) + 1),
    {
        let (index, _) = self.unsafe_unsolved_position(name);
        let ghost inserted = elements@;
        let mut elements = elements;
        let length = self.elements.len();
        let mut tail = self.elements.split_off(index + 1);
        let _ = self.elements.pop();
        self.elements.append(&mut elements);
        self.elements.append(&mut tail);
        proof {
            assert(self@ =~= old(self)@.take(index as int) + inserted + old(self)@.skip(index + 1));
        }
    }

    /// Determines whether a type is well-formed: whether the context holds
    /// each of its type variables.
    pub fn type_is_well_formed(&self, ty: &SourceType) -> (well_formed: bool)
        ensures
            well_formed == is_well_formed(self@, ty.erase()),
    {
        proof {
            assert(self@.take(self@.len() as int) =~= self@);
        }
        self.type_is_well_formed_common(ty, self.elements.len())
    }

    /// Determines whether a type is well-formed before an unsolved
    /// variable: whether the part of the context before the variable holds
    /// each of its type variables. Without the variable, the whole context
    /// counts.
    pub fn type_is_well_formed_before_unsolved(&self, ty: &SourceType, until: i32) -> (well_formed:
        bool)
        ensures
            well_formed == is_well_formed(
                self@.take(unsolved_position(self@, until)),
                ty.erase(),
            ),
    {
        let mut limit: usize = 0;
        proof {
            lemma_unsolved_position(self@, until);
            assert(self@.skip(0) =~= self@);
        }
        while limit < self.elements.len()
            invariant
                0 <= limit <= self.elements.len(),
                self@ == self.elements@,
                unsolved_position(self@, until) == limit + unsolved_position(
                    self@.skip(limit as int),
                    until,
                ),
            ensures
                limit == unsolved_position(self@, until),
                limit <= self.elements.len(),
            decreases self.elements.len() - limit,
        {
            proof {
                assert(self@.skip(limit as int).drop_first() =~= self@.skip(limit + 1));
            }
            if let Element::Unsolved { name, kind: _ } = &self.elements[limit] {
                if *name == until {
                    break ;
                }
            }
            limit += 1;
        }
        self.type_is_well_formed_common(ty, limit)
    }

    fn type_is_well_formed_common(&self, ty: &SourceType, limit: usize) -> (well_formed: bool)
        requires
            limit <= self@.len(),
        ensures
            well_formed == is_well_formed(self@.take(limit as int), ty.erase()),
    {
        let variables = TypeVariableVisitor::from_type(ty);
        let ghost elements = self@.take(limit as int);
        let mut index: usize = 0;
        while index < variables.syntactic.len()
            invariant
                0 <= index <= variables.syntactic.len(),
                limit <= self@.len(),
                elements == self@.take(limit as int),
                variables@.same(Variables::of_type(ty.erase(), seq![])),
                forall|i: int|
                    0 <= i < index ==> variable_names(elements, VariableVariant::Syntactic).contains(
                        (#[trigger] variables.syntactic@[i])@,
                    ),
            decreases variables.syntactic.len() - index,
        {
            if !self.has_variable(limit, variables.syntactic[index].as_str(), VariableVariant::Syntactic) {
                assert(text_set(variables.syntactic@).contains(variables.syntactic@[index as int]@));
                return false;
            }
            index += 1;
        }
        let mut index: usize = 0;
        while index < variables.skolem.len()
            invariant
                0 <= index <= variables.skolem.len(),
                limit <= self@.len(),
                elements == self@.take(limit as int),
                variables@.same(Variables::of_type(ty.erase(), seq![])),
                forall|i: int|
                    0 <= i < index ==> variable_names(elements, VariableVariant::Skolem).contains(
                        (#[trigger] variables.skolem@[i])@,
                    ),
            decreases variables.skolem.len() - index,
        {
            if !self.has_variable(limit, variables.skolem[index].as_str(), VariableVariant::Skolem) {
                assert(text_set(variables.skolem@).contains(variables.skolem@[index as int]@));
                return false;
            }
            index += 1;
        }
        let mut index: usize = 0;
        while index < variables.unification.len()
            invariant
                0 <= index <= variables.unification.len(),
                limit <= self@.len(),
                elements == self@.take(limit as int),
                variables@.same(Variables::of_type(ty.erase(), seq![])),
                forall|i: int|
                    0 <= i < index ==> unification_names(elements).contains(
                        #[trigger] variables.unification@[i],
                    ),
            decreases variables.unification.len() - index,
        {
            if !self.has_unification(limit, variables.unification[index]) {
                assert(variables.unification@.to_set().contains(
                    variables.unification@[index as int],
                ));
                return false;
            }
            index += 1;
        }
        proof {
            assert forall|text: Seq<char>|
                free_syntactic(ty.erase(), seq![]).contains(text) implies variable_names(
                elements,
                VariableVariant::Syntactic,
            ).contains(text) by {
                let i = choose|i: int|
                    0 <= i < variables.syntactic@.len() && (#[trigger] variables.syntactic@[i])@
                        == text;
                assert(variables.syntactic@[i]@ == text);
            }
            assert forall|text: Seq<char>| skolems(ty.erase()).contains(text) implies variable_names(
                elements,
                VariableVariant::Skolem,
            ).contains(text) by {
                let i = choose|i: int|
                    0 <= i < variables.skolem@.len() && (#[trigger] variables.skolem@[i])@ == text;
                assert(variables.skolem@[i]@ == text);
            }
            assert forall|name: i32|
                unifications(ty.erase()).contains(name) implies unification_names(
                elements,
            ).contains(name) by {
                assert(variables.unification@.contains(name));
                let i = choose|i: int|
                    0 <= i < variables.unification@.len() && variables.unification@[i] == name;
                assert(variables.unification@[i] == name);
            }
        }
        true
    }

    fn has_variable(&self, limit: usize, name: &str, variant: VariableVariant) -> (r: bool)
        requires
            limit <= self@.len(),
        ensures
            r == variable_names(self@.take(limit as int), variant).contains(name@),
    {
        let mut index: usize = 0;
        while index < limit
            invariant
                0 <= index <= limit <= self.elements.len(),
                self@ == self.elements@,
                forall|i: int| 0 <= i < index ==> !is_variable(#[trigger] self@[i], name@, variant),
            decreases limit - index,
        {
            if let Element::Variable { name: found, kind: _, variant: sort } = &self.elements[index] {
                if *sort == variant && same_text(found.as_str(), name) {
                    assert(is_variable(self@.take(limit as int)[index as int], name@, variant));
                    return true;
                }
            }
            index += 1;
        }
        proof {
            if variable_names(self@.take(limit as int), variant).contains(name@) {
                let i = choose|i: int|
                    0 <= i < limit && is_variable(
                        #[trigger] self@.take(limit as int)[i],
                        name@,
                        variant,
                    );
                assert(is_variable(self@[i], name@, variant));
            }
        }
        false
    }

    fn has_unification(&self, limit: usize, name: i32) -> (r: bool)
        requires
            limit <= self@.len(),
        ensures
            r == unification_names(self@.take(limit as int)).contains(name),
    {
        let mut index: usize = 0;
        while index < limit
            invariant
                0 <= index <= limit <= self.elements.len(),
                self@ == self.elements@,
                forall|i: int| 0 <= i < index ==> !is_unification(#[trigger] self@[i], name),
            decreases limit - index,
        {
            let found = match &self.elements[index] {
                Element::Unsolved { name: found, kind: _ } => *found == name,
                Element::Solved { name: found, kind: _, ty: _ } => *found == name,
                _ => false,
            };
            if found {
                assert(is_unification(self@.take(limit as int)[index as int], name));
                return true;
            }
            index += 1;
        }
        proof {
            if unification_names(self@.take(limit as int)).contains(name) {
                let i = choose|i: int|
                    0 <= i < limit && is_unification(#[trigger] self@.take(limit as int)[i], name);
                assert(is_unification(self@[i], name));
            }
        }
        false
    }
}

/// Whether `element` is the type variable `name` of the sort `variant`.
pub open spec fn is_variable(element: Element, name: Seq<char>, variant: VariableVariant) -> bool {
    element matches Element::Variable { name: found, kind: _, variant: sort } && found@ == name
        && sort == variant
}

/// Whether `element` is the unification variable `name`, solved or not.
pub open spec fn is_unification(element: Element, name: i32) -> bool {
    match element {
        Element::Unsolved { name: found, .. } => found == name,
        Element::Solved { name: found, .. } => found == name,
        _ => false,
    }
}

/// The names of the type variables of the sort `variant` among `elements`.
pub open spec fn variable_names(elements: Seq<Element>, variant: VariableVariant) -> Set<
    Seq<char>,
> {
    Set::new(
        |name: Seq<char>|
            exists|i: int|
                0 <= i < elements.len() && is_variable(#[trigger] elements[i], name, variant),
    )
}

/// The names of the unification variables among `elements`.
pub open spec fn unification_names(elements: Seq<Element>) -> Set<i32> {
    Set::new(
        |name: i32|
            exists|i: int| 0 <= i < elements.len() && is_unification(#[trigger] elements[i], name),
    )
}

/// Whether `elements` hold every type variable of `tree`: its free
/// syntactic variables and its skolem variables as variables of their
/// sort, and its unification variables solved or unsolved.
pub open spec fn is_well_formed(elements: Seq<Element>, tree: TypeTree) -> bool {
    &&& free_syntactic(tree, seq![]).subset_of(variable_names(elements, VariableVariant::Syntactic))
    &&& skolems(tree).subset_of(variable_names(elements, VariableVariant::Skolem))
    &&& unifications(tree).subset_of(unification_names(elements))
}

} // verus!
