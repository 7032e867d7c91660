//! The type variables of a type: gathering them, and putting types in
//! their place.
//!
//! Both walk the type by its variants. A quantifier binds its name in its
//! body, and in nothing else: the variable is free in the kind.

use crate::ast::expr::{Expr, ExprTree, Literal, LiteralTree};
use crate::ast::ty::{Type, TypeTree};
use crate::interner::{interned, lemma_interned_grows};
use crate::lines::same_text;
use std::rc::Rc;
use vstd::prelude::*;

verus! {

/// The syntactic variables that are free in `tree`, where `bound` are
/// bound around it.
pub open spec fn free_syntactic(tree: TypeTree, bound: Seq<Seq<char>>) -> Set<Seq<char>>
    decreases tree,
{
    match tree {
        TypeTree::Forall { name, kind, body } => {
            let of_kind = match kind {
                Some(kind) => free_syntactic(*kind, bound),
                None => Set::empty(),
            };
            of_kind + free_syntactic(*body, bound.push(name))
        },
        TypeTree::Variable { name } => if bound.contains(name) {
            Set::empty()
        } else {
            set![name]
        },
        TypeTree::Application { variant: _, function, argument } => free_syntactic(
            *function,
            bound,
        ) + free_syntactic(*argument, bound),
        TypeTree::Function { argument, result } => free_syntactic(*argument, bound)
            + free_syntactic(*result, bound),
        _ => Set::empty(),
    }
}

/// The skolem variables of `tree`.
pub open spec fn skolems(tree: TypeTree) -> Set<Seq<char>>
    decreases tree,
{
    match tree {
        TypeTree::Forall { name: _, kind, body } => {
            let of_kind = match kind {
                Some(kind) => skolems(*kind),
                None => Set::empty(),
            };
            of_kind + skolems(*body)
        },
        TypeTree::Skolem { name } => set![name],
        TypeTree::Application { variant: _, function, argument } => skolems(*function) + skolems(
            *argument,
        ),
        TypeTree::Function { argument, result } => skolems(*argument) + skolems(*result),
        _ => Set::empty(),
    }
}

/// The unification variables of `tree`.
pub open spec fn unifications(tree: TypeTree) -> Set<i32>
    decreases tree,
{
    match tree {
        TypeTree::Forall { name: _, kind, body } => {
            let of_kind = match kind {
                Some(kind) => unifications(*kind),
                None => Set::empty(),
            };
            of_kind + unifications(*body)
        },
        TypeTree::Unsolved { name } => set![name],
        TypeTree::Application { variant: _, function, argument } => unifications(*function)
            + unifications(*argument),
        TypeTree::Function { argument, result } => unifications(*argument) + unifications(*result),
        _ => Set::empty(),
    }
}

/// The texts of `names`, as a set.
pub open spec fn text_set(names: Seq<String>) -> Set<Seq<char>> {
    Set::new(|text: Seq<char>| exists|i: int| 0 <= i < names.len() && (#[trigger] names[i])@ == text)
}

/// The texts of `names`, in order.
pub open spec fn text_seq(names: Seq<String>) -> Seq<Seq<char>> {
    names.map_values(|name: String| name@)
}

/// Whether `names` hold the text of `name`.
pub fn contains_text(names: &Vec<String>, name: &str) -> (r: bool)
    ensures
        r == text_set(names@).contains(name@),
        r == text_seq(names@).contains(name@),
{
    let mut index: usize = 0;
    while index < names.len()
        invariant
            0 <= index <= names.len(),
            forall|i: int| 0 <= i < index ==> (#[trigger] names@[i])@ != name@,
        decreases names.len() - index,
    {
        if same_text(names[index].as_str(), name) {
            assert(text_seq(names@)[index as int] == name@);
            return true;
        }
        index += 1;
    }
    proof {
        if text_seq(names@).contains(name@) {
            let i = choose|i: int| 0 <= i < names@.len() && text_seq(names@)[i] == name@;
            assert(names@[i]@ == name@);
        }
    }
    false
}

/// Adds the text of `name` to `names`, unless they hold it.
pub fn insert_text(names: &mut Vec<String>, name: &str)
    ensures
        text_set(final(names)@) == text_set(old(names)@).insert(name@),
        text_seq(final(names)@) == interned(text_seq(old(names)@), name@),
{
    if !contains_text(names, name) {
        names.push(name.to_owned());
        proof {
            assert(text_seq(names@) =~= text_seq(old(names)@).push(name@));
            assert forall|text: Seq<char>|
                text_set(names@).contains(text) == text_set(old(names)@).insert(name@).contains(
                    text,
                ) by {
                if text_set(names@).contains(text) {
                    let i = choose|i: int| 0 <= i < names@.len() && (#[trigger] names@[i])@ == text;
                    if i < old(names)@.len() {
                        assert(old(names)@[i]@ == text);
                    }
                }
                if text_set(old(names)@).contains(text) {
                    let i = choose|i: int|
                        0 <= i < old(names)@.len() && (#[trigger] old(names)@[i])@ == text;
                    assert(names@[i]@ == text);
                }
                if text == name@ {
                    assert(names@[names@.len() - 1]@ == text);
                }
            }
            assert(text_set(names@) =~= text_set(old(names)@).insert(name@));
        }
    } else {
        assert(text_set(names@) =~= text_set(old(names)@).insert(name@));
    }
}

/// Adds `name` to `names`, unless they hold it.
pub fn insert_number(names: &mut Vec<i32>, name: i32)
    ensures
        final(names)@.to_set() == old(names)@.to_set().insert(name),
        final(names)@ == interned(old(names)@, name),
{
    let mut index: usize = 0;
    while index < names.len()
        invariant
            0 <= index <= names.len(),
            names@ == old(names)@,
            forall|i: int| 0 <= i < index ==> names@[i] != name,
        decreases names.len() - index,
    {
        if names[index] == name {
            assert(names@.to_set().contains(name));
            assert(names@.to_set() =~= old(names)@.to_set().insert(name));
            assert(names@.contains(name));
            return ;
        }
        index += 1;
    }
    names.push(name);
    proof {
        if old(names)@.contains(name) {
            let i = choose|i: int| 0 <= i < old(names)@.len() && old(names)@[i] == name;
            assert(old(names)@[i] == name);
        }
        assert forall|x: i32|
            names@.to_set().contains(x) == old(names)@.to_set().insert(name).contains(x) by {
            if names@.contains(x) {
                let i = choose|i: int| 0 <= i < names@.len() && names@[i] == x;
                if i < old(names)@.len() {
                    assert(old(names)@[i] == x);
                }
            }
            if old(names)@.contains(x) {
                let i = choose|i: int| 0 <= i < old(names)@.len() && old(names)@[i] == x;
                assert(names@[i] == x);
            }
            if x == name {
                assert(names@[names@.len() - 1] == x);
            }
        }
        assert(names@.to_set() =~= old(names)@.to_set().insert(name));
    }
}

/// The type variables of a type, by their sort, each once.
#[derive(Debug, Default)]
pub struct TypeVariablesGathered {
    pub syntactic: Vec<String>,
    pub skolem: Vec<String>,
    pub unification: Vec<i32>,
}

/// Type variables by their sort, as sets.
pub struct Variables {
    pub syntactic: Set<Seq<char>>,
    pub skolem: Set<Seq<char>>,
    pub unification: Set<i32>,
}

impl Variables {
    /// No variables.
    pub open spec fn empty() -> Variables {
        Variables { syntactic: Set::empty(), skolem: Set::empty(), unification: Set::empty() }
    }

    /// The variables of both.
    pub open spec fn plus(self, other: Variables) -> Variables {
        Variables {
            syntactic: self.syntactic + other.syntactic,
            skolem: self.skolem + other.skolem,
            unification: self.unification + other.unification,
        }
    }

    /// The type variables of a type, where `bound` are bound around it.
    pub open spec fn of_type(tree: TypeTree, bound: Seq<Seq<char>>) -> Variables {
        Variables {
            syntactic: free_syntactic(tree, bound),
            skolem: skolems(tree),
            unification: unifications(tree),
        }
    }

    /// The same variables of each sort.
    pub open spec fn same(self, other: Variables) -> bool {
        &&& self.syntactic =~= other.syntactic
        &&& self.skolem =~= other.skolem
        &&& self.unification =~= other.unification
    }
}

impl TypeVariablesGathered {
    /// No variable stands twice in its list.
    pub open spec fn distinct(&self) -> bool {
        &&& text_seq(self.syntactic@).no_duplicates()
        &&& text_seq(self.skolem@).no_duplicates()
        &&& self.unification@.no_duplicates()
    }
}

impl View for TypeVariablesGathered {
    type V = Variables;

    open spec fn view(&self) -> Variables {
        Variables {
            syntactic: text_set(self.syntactic@),
            skolem: text_set(self.skolem@),
            unification: self.unification@.to_set(),
        }
    }
}

/// Gathers the type variables of a type.
pub struct TypeVariableVisitor {
    variables: TypeVariablesGathered,
    in_scope: Vec<String>,
}

impl TypeVariableVisitor {
    /// The type variables of `t`: the syntactic variables that are free in
    /// it, its skolem variables and its unification variables.
    pub fn from_type<Ann>(t: &Type<Ann>) -> (gathered: TypeVariablesGathered)
        ensures
            gathered@.same(Variables::of_type(t.erase(), seq![])),
            gathered.distinct(),
    {
        let mut this = TypeVariableVisitor {
            variables: TypeVariablesGathered {
                syntactic: Vec::new(),
                skolem: Vec::new(),
                unification: Vec::new(),
            },
            in_scope: Vec::new(),
        };
        proof {
            assert(text_seq(this.in_scope@) =~= seq![]);
            assert(this.variables@.same(Variables::empty()));
            assert(text_seq(this.variables.syntactic@) =~= seq![]);
            assert(text_seq(this.variables.skolem@) =~= seq![]);
        }
        this.visit_type(t);
        this.variables
    }

    fn visit_type<Ann>(&mut self, t: &Type<Ann>)
        requires
            old(self).variables.distinct(),
        ensures
            final(self).variables.distinct(),
            text_seq(final(self).in_scope@) == text_seq(old(self).in_scope@),
            final(self).variables@.same(
                old(self).variables@.plus(
                    Variables::of_type(t.erase(), text_seq(old(self).in_scope@)),
                ),
            ),
        decreases t,
    {
        match t {
            Type::Forall { ann: _, name, kind, body } => {
                if let Some(kind) = &**kind {
                    self.visit_type(kind);
                }
                let ghost outer = text_seq(self.in_scope@);
                self.in_scope.push(name.clone());
                proof {
                    assert(text_seq(self.in_scope@) =~= outer.push(name@));
                }
                self.visit_type(body);
                let ghost inner = self.in_scope@;
                let _ = self.in_scope.pop();
                proof {
                    assert(self.in_scope@ =~= inner.drop_last());
                    assert(text_seq(inner.drop_last()) =~= text_seq(inner).drop_last());
                    assert(outer.push(name@).drop_last() =~= outer);
                }
            },
            Type::Skolem { ann: _, name } => {
                proof {
                    lemma_interned_grows(text_seq(self.variables.skolem@), name@);
                }
                insert_text(&mut self.variables.skolem, name.as_str());
            },
            Type::Unsolved { ann: _, name } => {
                proof {
                    lemma_interned_grows(self.variables.unification@, *name);
                }
                insert_number(&mut self.variables.unification, *name);
            },
            Type::Variable { ann: _, name } => {
                if !contains_text(&self.in_scope, name.as_str()) {
                    proof {
                        lemma_interned_grows(text_seq(self.variables.syntactic@), name@);
                    }
                    insert_text(&mut self.variables.syntactic, name.as_str());
                }
            },
            Type::Constructor { .. } => {},
            Type::Application { ann: _, variant: _, function, argument } => {
                self.visit_type(function);
                self.visit_type(argument);
            },
            Type::Function { ann: _, argument, result } => {
                self.visit_type(argument);
                self.visit_type(result);
            },
        }
    }
}

/// The tree that `pairs` give for `name`: that of the last pair of that
/// name.
pub open spec fn lookup_text(pairs: Seq<(Seq<char>, TypeTree)>, name: Seq<char>) -> Option<
    TypeTree,
>
    decreases pairs.len(),
{
    if pairs.len() == 0 {
        None
    } else if pairs.last().0 == name {
        Some(pairs.last().1)
    } else {
        lookup_text(pairs.drop_last(), name)
    }
}

/// The tree that `pairs` give for `name`: that of the last pair of that
/// name.
pub open spec fn lookup_number(pairs: Seq<(i32, TypeTree)>, name: i32) -> Option<TypeTree>
    decreases pairs.len(),
{
    if pairs.len() == 0 {
        None
    } else if pairs.last().0 == name {
        Some(pairs.last().1)
    } else {
        lookup_number(pairs.drop_last(), name)
    }
}

/// `tree` with the types of `syntactic` in place of its free syntactic
/// variables and those of `unification` in place of its unification
/// variables, where `bound` are bound around it. What is put in place is
/// not walked again.
pub open spec fn substitute(
    tree: TypeTree,
    syntactic: Seq<(Seq<char>, TypeTree)>,
    unification: Seq<(i32, TypeTree)>,
    bound: Seq<Seq<char>>,
) -> TypeTree
    decreases tree,
{
    match tree {
        TypeTree::Forall { name, kind, body } => TypeTree::Forall {
            name,
            kind: match kind {
                Some(kind) => Some(Box::new(substitute(*kind, syntactic, unification, bound))),
                None => None,
            },
            body: Box::new(substitute(*body, syntactic, unification, bound.push(name))),
        },
        TypeTree::Unsolved { name } => match lookup_number(unification, name) {
            Some(replacement) => replacement,
            None => tree,
        },
        TypeTree::Variable { name } => if bound.contains(name) {
            tree
        } else {
            match lookup_text(syntactic, name) {
                Some(replacement) => replacement,
                None => tree,
            }
        },
        TypeTree::Application { variant, function, argument } => TypeTree::Application {
            variant,
            function: Box::new(substitute(*function, syntactic, unification, bound)),
            argument: Box::new(substitute(*argument, syntactic, unification, bound)),
        },
        TypeTree::Function { argument, result } => TypeTree::Function {
            argument: Box::new(substitute(*argument, syntactic, unification, bound)),
            result: Box::new(substitute(*result, syntactic, unification, bound)),
        },
        _ => tree,
    }
}

/// Puts types in the place of type variables.
pub struct TypeVariableTraversal<Ann> {
    syntactic: Vec<(String, Rc<Type<Ann>>)>,
    unification: Vec<(i32, Rc<Type<Ann>>)>,
    in_scope: Vec<String>,
}

/// The names and the erased types of `pairs`.
pub open spec fn text_pairs<Ann>(pairs: Seq<(String, Rc<Type<Ann>>)>) -> Seq<(Seq<char>, TypeTree)> {
    pairs.map_values(|pair: (String, Rc<Type<Ann>>)| (pair.0@, pair.1.erase()))
}

/// The names and the erased types of `pairs`.
pub open spec fn number_pairs<Ann>(pairs: Seq<(i32, Rc<Type<Ann>>)>) -> Seq<(i32, TypeTree)> {
    pairs.map_values(|pair: (i32, Rc<Type<Ann>>)| (pair.0, pair.1.erase()))
}

impl<Ann: Copy> TypeVariableTraversal<Ann> {
    /// The types that stand in for syntactic variables.
    pub closed spec fn syntactic(&self) -> Seq<(Seq<char>, TypeTree)> {
        text_pairs(self.syntactic@)
    }

    /// The types that stand in for unification variables.
    pub closed spec fn unification(&self) -> Seq<(i32, TypeTree)> {
        number_pairs(self.unification@)
    }

    /// The names that are bound where the traversal stands.
    pub closed spec fn bound(&self) -> Seq<Seq<char>> {
        text_seq(self.in_scope@)
    }

    /// A traversal that puts the given types in place of the syntactic
    /// variables of the given names.
    pub fn with_syntactic(syntactic: Vec<(String, Rc<Type<Ann>>)>) -> (traversal:
        TypeVariableTraversal<Ann>)
        ensures
            traversal.syntactic() == text_pairs(syntactic@),
            traversal.unification() == Seq::<(i32, TypeTree)>::empty(),
            traversal.bound() == Seq::<Seq<char>>::empty(),
    {
        let traversal = TypeVariableTraversal {
            syntactic,
            unification: Vec::new(),
            in_scope: Vec::new(),
        };
        proof {
            assert(traversal.unification() =~= Seq::<(i32, TypeTree)>::empty());
            assert(traversal.bound() =~= Seq::<Seq<char>>::empty());
        }
        traversal
    }

    /// A traversal that puts the given types in place of the unification
    /// variables of the given names.
    pub fn with_unification(unification: Vec<(i32, Rc<Type<Ann>>)>) -> (traversal:
        TypeVariableTraversal<Ann>)
        ensures
            traversal.syntactic() == Seq::<(Seq<char>, TypeTree)>::empty(),
            traversal.unification() == number_pairs(unification@),
            traversal.bound() == Seq::<Seq<char>>::empty(),
    {
        let traversal = TypeVariableTraversal {
            syntactic: Vec::new(),
            unification,
            in_scope: Vec::new(),
        };
        proof {
            assert(traversal.syntactic() =~= Seq::<(Seq<char>, TypeTree)>::empty());
            assert(traversal.bound() =~= Seq::<Seq<char>>::empty());
        }
        traversal
    }

    /// The type `t` with the types of the traversal in place of its
    /// variables.
    pub fn on_type(self, t: Rc<Type<Ann>>) -> (replaced: Rc<Type<Ann>>)
        ensures
            replaced.erase() == substitute(
                t.erase(),
                self.syntactic(),
                self.unification(),
                self.bound(),
            ),
    {
        let mut this = self;
        this.traverse_type(&t)
    }

    fn find_text(&self, name: &str) -> (found: Option<Rc<Type<Ann>>>)
        ensures
            match found {
                Some(replacement) => lookup_text(self.syntactic(), name@) == Some(
                    replacement.erase(),
                ),
                None => lookup_text(self.syntactic(), name@).is_none(),
            },
    {
        let mut index = self.syntactic.len();
        proof {
            assert(self.syntactic().take(index as int) =~= self.syntactic());
        }
        while index > 0
            invariant
                0 <= index <= self.syntactic.len(),
                lookup_text(self.syntactic(), name@) == lookup_text(
                    self.syntactic().take(index as int),
                    name@,
                ),
            decreases index,
        {
            proof {
                assert(self.syntactic().take(index as int).drop_last() =~= self.syntactic().take(
                    index - 1,
                ));
            }
            if same_text(self.syntactic[index - 1].0.as_str(), name) {
                return Some(Rc::clone(&self.syntactic[index - 1].1));
            }
            index -= 1;
        }
        None
    }

    fn find_number(&self, name: i32) -> (found: Option<Rc<Type<Ann>>>)
        ensures
            match found {
                Some(replacement) => lookup_number(self.unification(), name) == Some(
                    replacement.erase(),
                ),
                None => lookup_number(self.unification(), name).is_none(),
            },
    {
        let mut index = self.unification.len();
        proof {
            assert(self.unification().take(index as int) =~= self.unification());
        }
        while index > 0
            invariant
                0 <= index <= self.unification.len(),
                lookup_number(self.unification(), name) == lookup_number(
                    self.unification().take(index as int),
                    name,
                ),
            decreases index,
        {
            proof {
                assert(self.unification().take(index as int).drop_last()
                    =~= self.unification().take(index - 1));
            }
            if self.unification[index - 1].0 == name {
                return Some(Rc::clone(&self.unification[index - 1].1));
            }
            index -= 1;
        }
        None
    }

    fn traverse_type(&mut self, t: &Rc<Type<Ann>>) -> (replaced: Rc<Type<Ann>>)
        ensures
            final(self).syntactic() == old(self).syntactic(),
            final(self).unification() == old(self).unification(),
            final(self).bound() == old(self).bound(),
            replaced.erase() == substitute(
                t.erase(),
                old(self).syntactic(),
                old(self).unification(),
                old(self).bound(),
            ),
        decreases t,
    {
        match &**t {
            Type::Forall { ann, name, kind, body } => {
                let kind = match &**kind {
                    Some(kind) => {
                        let replaced = self.traverse_kind(kind);
                        Some(replaced)
                    },
                    None => None,
                };
                let ghost outer = self.bound();
                self.in_scope.push(name.clone());
                proof {
                    assert(self.bound() =~= outer.push(name@));
                }
                let body = self.traverse_type(body);
                let ghost inner = self.in_scope@;
                let _ = self.in_scope.pop();
                proof {
                    assert(self.in_scope@ =~= inner.drop_last());
                    assert(text_seq(inner.drop_last()) =~= text_seq(inner).drop_last());
                    assert(outer.push(name@).drop_last() =~= outer);
                    assert(self.bound() =~= outer);
                }
                Rc::new(Type::Forall { ann: *ann, name: name.clone(), kind: Rc::new(kind), body })
            },
            Type::Unsolved { ann: _, name } => match self.find_number(*name) {
                Some(replacement) => replacement,
                None => Rc::clone(t),
            },
            Type::Variable { ann: _, name } => {
                if contains_text(&self.in_scope, name.as_str()) {
                    Rc::clone(t)
                } else {
                    match self.find_text(name.as_str()) {
                        Some(replacement) => replacement,
                        None => Rc::clone(t),
                    }
                }
            },
            Type::Application { ann, variant, function, argument } => {
                let function = self.traverse_type(function);
                let argument = self.traverse_type(argument);
                Rc::new(Type::Application { ann: *ann, variant: *variant, function, argument })
            },
            Type::Function { ann, argument, result } => {
                let argument = self.traverse_type(argument);
                let result = self.traverse_type(result);
                Rc::new(Type::Function { ann: *ann, argument, result })
            },
            _ => Rc::clone(t),
        }
    }

    fn traverse_kind(&mut self, kind: &Type<Ann>) -> (replaced: Type<Ann>)
        ensures
            final(self).syntactic() == old(self).syntactic(),
            final(self).unification() == old(self).unification(),
            final(self).bound() == old(self).bound(),
            replaced.erase() == substitute(
                kind.erase(),
                old(self).syntactic(),
                old(self).unification(),
                old(self).bound(),
            ),
        decreases kind,
    {
        match kind {
            Type::Forall { ann, name, kind: inner, body } => {
                let inner = match &**inner {
                    Some(inner) => {
                        let replaced = self.traverse_kind(inner);
                        Some(replaced)
                    },
                    None => None,
                };
                let ghost outer = self.bound();
                self.in_scope.push(name.clone());
                proof {
                    assert(self.bound() =~= outer.push(name@));
                }
                let body = self.traverse_type(body);
                let ghost scope = self.in_scope@;
                let _ = self.in_scope.pop();
                proof {
                    assert(self.in_scope@ =~= scope.drop_last());
                    assert(text_seq(scope.drop_last()) =~= text_seq(scope).drop_last());
                    assert(outer.push(name@).drop_last() =~= outer);
                    assert(self.bound() =~= outer);
                }
                Type::Forall { ann: *ann, name: name.clone(), kind: Rc::new(inner), body }
            },
            Type::Skolem { ann, name } => Type::Skolem { ann: *ann, name: name.clone() },
            Type::Constructor { ann, name } => Type::Constructor { ann: *ann, name: name.clone() },
            Type::Unsolved { ann, name } => match self.find_number(*name) {
                Some(replacement) => copy_type(&replacement),
                None => Type::Unsolved { ann: *ann, name: *name },
            },
            Type::Variable { ann, name } => {
                if contains_text(&self.in_scope, name.as_str()) {
                    Type::Variable { ann: *ann, name: name.clone() }
                } else {
                    match self.find_text(name.as_str()) {
                        Some(replacement) => copy_type(&replacement),
                        None => Type::Variable { ann: *ann, name: name.clone() },
                    }
                }
            },
            Type::Application { ann, variant, function, argument } => {
                let function = self.traverse_type(function);
                let argument = self.traverse_type(argument);
                Type::Application { ann: *ann, variant: *variant, function, argument }
            },
            Type::Function { ann, argument, result } => {
                let argument = self.traverse_type(argument);
                let result = self.traverse_type(result);
                Type::Function { ann: *ann, argument, result }
            },
        }
    }
}

/// A copy of the outermost node of `t`, which shares what is below it.
pub fn copy_type<Ann: Copy>(t: &Type<Ann>) -> (copy: Type<Ann>)
    ensures
        copy == *t,
{
    match t {
        Type::Forall { ann, name, kind, body } => Type::Forall {
            ann: *ann,
            name: name.clone(),
            kind: Rc::clone(kind),
            body: Rc::clone(body),
        },
        Type::Skolem { ann, name } => Type::Skolem { ann: *ann, name: name.clone() },
        Type::Unsolved { ann, name } => Type::Unsolved { ann: *ann, name: *name },
        Type::Variable { ann, name } => Type::Variable { ann: *ann, name: name.clone() },
        Type::Constructor { ann, name } => Type::Constructor { ann: *ann, name: name.clone() },
        Type::Application { ann, variant, function, argument } => Type::Application {
            ann: *ann,
            variant: *variant,
            function: Rc::clone(function),
            argument: Rc::clone(argument),
        },
        Type::Function { ann, argument, result } => Type::Function {
            ann: *ann,
            argument: Rc::clone(argument),
            result: Rc::clone(result),
        },
    }
}

/// The type variables of the types that annotate `tree` or an expression
/// within it.
pub open spec fn expr_variables(tree: ExprTree) -> Variables
    decreases tree, 0nat,
{
    match tree {
        ExprTree::Literal { literal } => match literal {
            LiteralTree::Array(expressions) => exprs_variables(expressions, expressions.len()),
            LiteralTree::Object(fields) => fields_variables(fields, fields.len()),
            _ => Variables::empty(),
        },
        ExprTree::Variable { .. } => Variables::empty(),
        ExprTree::Lambda { argument: _, expression } => expr_variables(*expression),
        ExprTree::Application { function, argument } => expr_variables(*function).plus(
            expr_variables(*argument),
        ),
        ExprTree::Annotation { expression, ty, checked: _ } => expr_variables(*expression).plus(
            Variables::of_type(ty, seq![]),
        ),
        ExprTree::Let { name: _, value, expression } => expr_variables(*value).plus(
            expr_variables(*expression),
        ),
    }
}

/// The type variables of the first `n` of `expressions`.
pub open spec fn exprs_variables(expressions: Seq<ExprTree>, n: nat) -> Variables
    decreases expressions, n,
{
    if n == 0 || n > expressions.len() {
        Variables::empty()
    } else {
        exprs_variables(expressions, (n - 1) as nat).plus(expr_variables(expressions[n - 1]))
    }
}

/// The type variables of the expressions of the first `n` of `fields`.
pub open spec fn fields_variables(fields: Seq<(Seq<char>, ExprTree)>, n: nat) -> Variables
    decreases fields, n,
{
    if n == 0 || n > fields.len() {
        Variables::empty()
    } else {
        fields_variables(fields, (n - 1) as nat).plus(expr_variables(fields[n - 1].1))
    }
}

impl TypeVariableVisitor {
    /// The type variables of the types that annotate `e` or an expression
    /// within it.
    pub fn from_expr<Ann>(e: &Expr<Ann>) -> (gathered: TypeVariablesGathered)
        ensures
            gathered@.same(expr_variables(e.erase())),
            gathered.distinct(),
    {
        let mut this = TypeVariableVisitor {
            variables: TypeVariablesGathered {
                syntactic: Vec::new(),
                skolem: Vec::new(),
                unification: Vec::new(),
            },
            in_scope: Vec::new(),
        };
        proof {
            assert(text_seq(this.in_scope@) =~= seq![]);
            assert(this.variables@.same(Variables::empty()));
            assert(text_seq(this.variables.syntactic@) =~= seq![]);
            assert(text_seq(this.variables.skolem@) =~= seq![]);
        }
        this.visit_expr(e);
        this.variables
    }

    fn visit_expr<Ann>(&mut self, e: &Expr<Ann>)
        requires
            text_seq(old(self).in_scope@) == Seq::<Seq<char>>::empty(),
            old(self).variables.distinct(),
        ensures
            final(self).variables.distinct(),
            text_seq(final(self).in_scope@) == Seq::<Seq<char>>::empty(),
            final(self).variables@.same(old(self).variables@.plus(expr_variables(e.erase()))),
        decreases e,
    {
        match e {
            Expr::Literal { ann: _, literal } => match literal {
                Literal::Array(expressions) => {
                    let ghost trees = e.erase()->literal->Array_0;
                    let mut index: usize = 0;
                    while index < expressions.len()
                        invariant
                            0 <= index <= expressions.len(),
                            *e == (Expr::Literal { ann: *e.spec_ann(), literal: *literal }),
                            *literal == Literal::<Rc<Expr<Ann>>>::Array(*expressions),
                            trees == e.erase()->literal->Array_0,
                            trees.len() == expressions.len(),
                            text_seq(self.in_scope@) == Seq::<Seq<char>>::empty(),
                            self.variables.distinct(),
                            self.variables@.same(
                                old(self).variables@.plus(exprs_variables(trees, index as nat)),
                            ),
                        decreases expressions.len() - index,
                    {
                        assert(trees[index as int] == expressions[index as int].erase());
                        self.visit_expr(&expressions[index]);
                        index += 1;
                    }
                },
                Literal::Object(fields) => {
                    let ghost trees = e.erase()->literal->Object_0;
                    let mut index: usize = 0;
                    while index < fields.len()
                        invariant
                            0 <= index <= fields.len(),
                            *e == (Expr::Literal { ann: *e.spec_ann(), literal: *literal }),
                            *literal == Literal::<Rc<Expr<Ann>>>::Object(*fields),
                            trees == e.erase()->literal->Object_0,
                            trees.len() == fields.len(),
                            text_seq(self.in_scope@) == Seq::<Seq<char>>::empty(),
                            self.variables.distinct(),
                            self.variables@.same(
                                old(self).variables@.plus(fields_variables(trees, index as nat)),
                            ),
                        decreases fields.len() - index,
                    {
                        assert(trees[index as int].1 == fields[index as int].1.erase());
                        self.visit_expr(&fields[index].1);
                        index += 1;
                    }
                },
                _ => {},
            },
            Expr::Variable { .. } => {},
            Expr::Lambda { ann: _, argument: _, expression } => {
                self.visit_expr(expression);
            },
            Expr::Application { ann: _, function, argument } => {
                self.visit_expr(function);
                self.visit_expr(argument);
            },
            Expr::Annotation { ann: _, expression, ty, checked: _ } => {
                self.visit_expr(expression);
                self.visit_type(ty);
            },
            Expr::Let { ann: _, name: _, value, expression } => {
                self.visit_expr(value);
                self.visit_expr(expression);
            },
        }
    }
}

/// `tree` with the types that annotate it, and the expressions within it,
/// substituted.
pub open spec fn substitute_expr(
    tree: ExprTree,
    syntactic: Seq<(Seq<char>, TypeTree)>,
    unification: Seq<(i32, TypeTree)>,
) -> ExprTree
    decreases tree, 0nat,
{
    match tree {
        ExprTree::Literal { literal } => ExprTree::Literal {
            literal: match literal {
                LiteralTree::Array(expressions) => LiteralTree::Array(
                    substitute_exprs(expressions, expressions.len(), syntactic, unification),
                ),
                LiteralTree::Object(fields) => LiteralTree::Object(
                    substitute_fields(fields, fields.len(), syntactic, unification),
                ),
                other => other,
            },
        },
        ExprTree::Variable { .. } => tree,
        ExprTree::Lambda { argument, expression } => ExprTree::Lambda {
            argument,
            expression: Box::new(substitute_expr(*expression, syntactic, unification)),
        },
        ExprTree::Application { function, argument } => ExprTree::Application {
            function: Box::new(substitute_expr(*function, syntactic, unification)),
            argument: Box::new(substitute_expr(*argument, syntactic, unification)),
        },
        ExprTree::Annotation { expression, ty, checked } => ExprTree::Annotation {
            expression: Box::new(substitute_expr(*expression, syntactic, unification)),
            ty: substitute(ty, syntactic, unification, seq![]),
            checked,
        },
        ExprTree::Let { name, value, expression } => ExprTree::Let {
            name,
            value: Box::new(substitute_expr(*value, syntactic, unification)),
            expression: Box::new(substitute_expr(*expression, syntactic, unification)),
        },
    }
}

/// The first `n` of `expressions`, substituted.
pub open spec fn substitute_exprs(
    expressions: Seq<ExprTree>,
    n: nat,
    syntactic: Seq<(Seq<char>, TypeTree)>,
    unification: Seq<(i32, TypeTree)>,
) -> Seq<ExprTree>
    decreases expressions, n,
{
    if n == 0 || n > expressions.len() {
        seq![]
    } else {
        substitute_exprs(expressions, (n - 1) as nat, syntactic, unification).push(
            substitute_expr(expressions[n - 1], syntactic, unification),
        )
    }
}

/// The first `n` of `fields`, their expressions substituted.
pub open spec fn substitute_fields(
    fields: Seq<(Seq<char>, ExprTree)>,
    n: nat,
    syntactic: Seq<(Seq<char>, TypeTree)>,
    unification: Seq<(i32, TypeTree)>,
) -> Seq<(Seq<char>, ExprTree)>
    decreases fields, n,
{
    if n == 0 || n > fields.len() {
        seq![]
    } else {
        substitute_fields(fields, (n - 1) as nat, syntactic, unification).push(
            (fields[n - 1].0, substitute_expr(fields[n - 1].1, syntactic, unification)),
        )
    }
}

impl<Ann: Copy> TypeVariableTraversal<Ann> {
    /// The expression `e` with the types of the traversal in place of the
    /// variables of the types that annotate it.
    pub fn on_expr(self, e: Rc<Expr<Ann>>) -> (replaced: Rc<Expr<Ann>>)
        requires
            self.bound() == Seq::<Seq<char>>::empty(),
        ensures
            replaced.erase() == substitute_expr(e.erase(), self.syntactic(), self.unification()),
    {
        let mut this = self;
        Rc::new(this.traverse_expr(&e))
    }

    fn traverse_expr(&mut self, e: &Expr<Ann>) -> (replaced: Expr<Ann>)
        requires
            old(self).bound() == Seq::<Seq<char>>::empty(),
        ensures
            final(self).syntactic() == old(self).syntactic(),
            final(self).unification() == old(self).unification(),
            final(self).bound() == old(self).bound(),
            replaced.erase() == substitute_expr(
                e.erase(),
                old(self).syntactic(),
                old(self).unification(),
            ),
        decreases e,
    {
        match e {
            Expr::Literal { ann, literal } => match literal {
                Literal::Character(c) => Expr::Literal { ann: *ann, literal: Literal::Character(*c) },
                Literal::String(text) => Expr::Literal {
                    ann: *ann,
                    literal: Literal::String(text.clone()),
                },
                Literal::Int(i) => Expr::Literal { ann: *ann, literal: Literal::Int(*i) },
                Literal::Float(number) => Expr::Literal {
                    ann: *ann,
                    literal: Literal::Float(*number),
                },
                Literal::Array(expressions) => {
                    let ghost trees = e.erase()->literal->Array_0;
                    let mut replaced: Vec<Rc<Expr<Ann>>> = Vec::new();
                    let mut index: usize = 0;
                    while index < expressions.len()
                        invariant
                            0 <= index <= expressions.len(),
                            *e == (Expr::Literal { ann: *e.spec_ann(), literal: *literal }),
                            *literal == Literal::<Rc<Expr<Ann>>>::Array(*expressions),
                            trees == e.erase()->literal->Array_0,
                            trees.len() == expressions.len(),
                            self.syntactic() == old(self).syntactic(),
                            self.unification() == old(self).unification(),
                            self.bound() == Seq::<Seq<char>>::empty(),
                            replaced@.len() == index,
                            forall|i: int|
                                0 <= i < index ==> (#[trigger] replaced@[i]).erase()
                                    == substitute_exprs(
                                    trees,
                                    index as nat,
                                    old(self).syntactic(),
                                    old(self).unification(),
                                )[i],
                            substitute_exprs(
                                trees,
                                index as nat,
                                old(self).syntactic(),
                                old(self).unification(),
                            ).len() == index,
                        decreases expressions.len() - index,
                    {
                        assert(trees[index as int] == expressions[index as int].erase());
                        let item = self.traverse_expr(&expressions[index]);
                        replaced.push(Rc::new(item));
                        index += 1;
                    }
                    let made = Expr::Literal { ann: *ann, literal: Literal::Array(replaced) };
                    proof {
                        assert(made.erase()->literal->Array_0 =~= substitute_exprs(
                            trees,
                            trees.len(),
                            old(self).syntactic(),
                            old(self).unification(),
                        ));
                    }
                    made
                },
                Literal::Object(fields) => {
                    let ghost trees = e.erase()->literal->Object_0;
                    let mut replaced: Vec<(String, Rc<Expr<Ann>>)> = Vec::new();
                    let mut index: usize = 0;
                    while index < fields.len()
                        invariant
                            0 <= index <= fields.len(),
                            *e == (Expr::Literal { ann: *e.spec_ann(), literal: *literal }),
                            *literal == Literal::<Rc<Expr<Ann>>>::Object(*fields),
                            trees == e.erase()->literal->Object_0,
                            trees.len() == fields.len(),
                            self.syntactic() == old(self).syntactic(),
                            self.unification() == old(self).unification(),
                            self.bound() == Seq::<Seq<char>>::empty(),
                            replaced@.len() == index,
                            forall|i: int|
                                0 <= i < index ==> ((#[trigger] replaced@[i]).0@, replaced@[i].1.erase())
                                    == substitute_fields(
                                    trees,
                                    index as nat,
                                    old(self).syntactic(),
                                    old(self).unification(),
                                )[i],
                            substitute_fields(
                                trees,
                                index as nat,
                                old(self).syntactic(),
                                old(self).unification(),
                            ).len() == index,
                        decreases fields.len() - index,
                    {
                        assert(trees[index as int] == (
                            fields[index as int].0@,
                            fields[index as int].1.erase(),
                        ));
                        let item = self.traverse_expr(&fields[index].1);
                        replaced.push((fields[index].0.clone(), Rc::new(item)));
                        index += 1;
                    }
                    let made = Expr::Literal { ann: *ann, literal: Literal::Object(replaced) };
                    proof {
                        assert(made.erase()->literal->Object_0 =~= substitute_fields(
                            trees,
                            trees.len(),
                            old(self).syntactic(),
                            old(self).unification(),
                        ));
                    }
                    made
                },
            },
            Expr::Variable { ann, name } => Expr::Variable { ann: *ann, name: name.clone() },
            Expr::Lambda { ann, argument, expression } => {
                let expression = self.traverse_expr(expression);
                Expr::Lambda { ann: *ann, argument: argument.clone(), expression: Rc::new(expression) }
            },
            Expr::Application { ann, function, argument } => {
                let function = self.traverse_expr(function);
                let argument = self.traverse_expr(argument);
                Expr::Application {
                    ann: *ann,
                    function: Rc::new(function),
                    argument: Rc::new(argument),
                }
            },
            Expr::Annotation { ann, expression, ty, checked } => {
                let expression = self.traverse_expr(expression);
                let ty = self.traverse_type(ty);
                Expr::Annotation { ann: *ann, expression: Rc::new(expression), ty, checked: *checked }
            },
            Expr::Let { ann, name, value, expression } => {
                let value = self.traverse_expr(value);
                let expression = self.traverse_expr(expression);
                Expr::Let {
                    ann: *ann,
                    name: name.clone(),
                    value: Rc::new(value),
                    expression: Rc::new(expression),
                }
            },
        }
    }
}

} // verus!
