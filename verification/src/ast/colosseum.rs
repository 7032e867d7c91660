//! The arena of the syntax tree: every annotation, string, type kind and
//! expression kind is interned, so that a node is a pair of handles.

use crate::ast::exprs::{Binder, BinderKind, Expr, ExprKind};
use crate::ast::types::{ApplicationKind, QuantifierKind, Type, TypeKind, VariableKind};
use crate::ast::Ann;
use crate::interner::{Interned, InternedString, Interner, Key, StringInterner};
use bumpalo::Bump;
use vstd::prelude::*;

verus! {

/// The arena of a syntax tree, with an interner for each kind of node.
pub struct Colosseum<'a> {
    ann_interner: Interner<'a, Ann>,
    string_interner: StringInterner<'a>,
    binder_kind_interner: Interner<'a, BinderKind<'a>>,
    expr_kind_interner: Interner<'a, ExprKind<'a>>,
    type_kind_interner: Interner<'a, TypeKind<'a>>,
}

/// `longer` is `shorter` with at most one value more at its end.
pub open spec fn grown<T>(shorter: Seq<T>, longer: Seq<T>) -> bool {
    longer == shorter || (longer.len() == shorter.len() + 1 && longer.drop_last() == shorter)
}

impl<'a> Colosseum<'a> {
    /// The annotations stored, in the order in which they came.
    pub closed spec fn annotations(&self) -> Seq<Ann> {
        self.ann_interner.view()
    }

    /// The strings stored.
    pub closed spec fn strings(&self) -> Seq<Seq<char>> {
        self.string_interner.view()
    }

    /// The binder kinds stored.
    pub closed spec fn binder_kinds(&self) -> Seq<BinderKind<'a>> {
        self.binder_kind_interner.view()
    }

    /// The expression kinds stored.
    pub closed spec fn expr_kinds(&self) -> Seq<ExprKind<'a>> {
        self.expr_kind_interner.view()
    }

    /// The type kinds stored.
    pub closed spec fn type_kinds(&self) -> Seq<TypeKind<'a>> {
        self.type_kind_interner.view()
    }

    /// What holds of every arena: each of its interners is well formed.
    pub closed spec fn wf(&self) -> bool {
        &&& self.ann_interner.wf()
        &&& self.string_interner.wf()
        &&& self.binder_kind_interner.wf()
        &&& self.expr_kind_interner.wf()
        &&& self.type_kind_interner.wf()
    }

    /// Whether the handles of `ty` are from this arena.
    pub open spec fn owns_type(&self, ty: Type<'a>) -> bool {
        &&& ty.0.place() < self.annotations().len()
        &&& self.annotations()[ty.0.place() as int] == ty.0.value()
        &&& ty.1.place() < self.type_kinds().len()
        &&& self.type_kinds()[ty.1.place() as int] == ty.1.value()
    }

    /// Whether the handles of `expression` are from this arena.
    pub open spec fn owns_expr(&self, expression: Expr<'a>) -> bool {
        &&& expression.0.place() < self.annotations().len()
        &&& self.annotations()[expression.0.place() as int] == expression.0.value()
        &&& expression.1.place() < self.expr_kinds().len()
        &&& self.expr_kinds()[expression.1.place() as int] == expression.1.value()
    }

    /// Whether `name` is a handle from this arena.
    pub open spec fn owns_string(&self, name: InternedString<'a>) -> bool {
        name.place() < self.strings().len() && self.strings()[name.place() as int] == name.text()
    }

    /// Nothing that was stored is lost or moved, and each store holds at
    /// most one value more.
    pub open spec fn extends(&self, before: &Colosseum<'a>) -> bool {
        &&& grown(before.annotations(), self.annotations())
        &&& grown(before.type_kinds(), self.type_kinds())
        &&& grown(before.expr_kinds(), self.expr_kinds())
        &&& grown(before.binder_kinds(), self.binder_kinds())
        &&& grown(before.strings(), self.strings())
    }

    /// Whether the handles of `binder` are from this arena.
    pub open spec fn owns_binder(&self, binder: Binder<'a>) -> bool {
        &&& binder.0.place() < self.annotations().len()
        &&& self.annotations()[binder.0.place() as int] == binder.0.value()
        &&& binder.1.place() < self.binder_kinds().len()
        &&& self.binder_kinds()[binder.1.place() as int] == binder.1.value()
    }

    /// Two types of one arena are equal exactly when their annotations
    /// and their kinds have the same keys.
    pub proof fn lemma_equal_types(&self, a: Type<'a>, b: Type<'a>)
        requires
            self.wf(),
            self.owns_type(a),
            self.owns_type(b),
        ensures
            (a.0.place() == b.0.place() && a.1.place() == b.1.place()) == (a.0.value().key_of()
                == b.0.value().key_of() && a.1.value().key_of() == b.1.value().key_of()),
    {
        self.ann_interner.lemma_equal_handles(a.0, b.0);
        self.type_kind_interner.lemma_equal_handles(a.1, b.1);
    }

    /// An arena that stores into `arena`.
    pub fn new(arena: &'a Bump) -> (colosseum: Colosseum<'a>)
        ensures
            colosseum.wf(),
            colosseum.annotations().len() == 0,
            colosseum.strings().len() == 0,
            colosseum.expr_kinds().len() == 0,
            colosseum.binder_kinds().len() == 0,
            colosseum.type_kinds().len() == 0,
    {
        Colosseum {
            ann_interner: Interner::new(arena),
            string_interner: StringInterner::new(arena),
            binder_kind_interner: Interner::new(arena),
            expr_kind_interner: Interner::new(arena),
            type_kind_interner: Interner::new(arena),
        }
    }

    /// The handle of the string `value`.
    pub fn intern_string(&mut self, value: &str) -> (name: InternedString<'a>)
        requires
            old(self).wf(),
        ensures
            final(self).wf(),
            final(self).owns_string(name),
            name.text() == value@,
            final(self).annotations() == old(self).annotations(),
            final(self).type_kinds() == old(self).type_kinds(),
            final(self).expr_kinds() == old(self).expr_kinds(),
            final(self).binder_kinds() == old(self).binder_kinds(),
            grown(old(self).strings(), final(self).strings()),
            old(self).strings().contains(value@) ==> final(self).strings() == old(self).strings(),
    {
        let ghost before = self.string_interner.view();
        let name = self.string_interner.intern(value);
        proof {
            if !before.contains(value@) {
                assert(before.push(value@).drop_last() =~= before);
            }
        }
        name
    }

    /// The expression of the kind `expr_kind` with the annotation `ann`.
    pub fn make_expr(&mut self, ann: Ann, expr_kind: ExprKind<'a>) -> (expression: Expr<'a>)
        requires
            old(self).wf(),
        ensures
            final(self).wf(),
            final(self).owns_expr(expression),
            final(self).extends(old(self)),
            expression.0.value() == ann,
            expression.1.value().key_of() == expr_kind.key_of(),
            final(self).type_kinds() == old(self).type_kinds(),
            final(self).binder_kinds() == old(self).binder_kinds(),
            final(self).strings() == old(self).strings(),
    {
        let ghost annotations = self.ann_interner.view();
        let ghost kinds = self.expr_kind_interner.view();
        let ghost given = ann;
        let ann = self.ann_interner.intern(ann);
        let expr_kind = self.expr_kind_interner.intern(expr_kind);
        proof {
            lemma_ann_key(ann.value(), given);
            lemma_grown(annotations, self.ann_interner.view(), ann.value());
            lemma_grown(kinds, self.expr_kind_interner.view(), expr_kind.value());
        }
        Expr(ann, expr_kind)
    }

    /// The binder of the kind `binder_kind` with the annotation `ann`.
    pub fn make_binder(&mut self, ann: Ann, binder_kind: BinderKind<'a>) -> (binder: Binder<'a>)
        requires
            old(self).wf(),
        ensures
            final(self).wf(),
            final(self).owns_binder(binder),
            final(self).extends(old(self)),
            binder.0.value() == ann,
            binder.1.value().key_of() == binder_kind.key_of(),
            final(self).type_kinds() == old(self).type_kinds(),
            final(self).expr_kinds() == old(self).expr_kinds(),
            final(self).strings() == old(self).strings(),
    {
        let ghost annotations = self.ann_interner.view();
        let ghost kinds = self.binder_kind_interner.view();
        let ghost given = ann;
        let ann = self.ann_interner.intern(ann);
        let binder_kind = self.binder_kind_interner.intern(binder_kind);
        proof {
            lemma_ann_key(ann.value(), given);
            lemma_grown(annotations, self.ann_interner.view(), ann.value());
            lemma_grown(kinds, self.binder_kind_interner.view(), binder_kind.value());
        }
        Binder(ann, binder_kind)
    }

    /// The type of the kind `type_kind` with the annotation `ann`. A type
    /// that was made before is found again, and nothing is stored.
    pub fn make_type(&mut self, ann: Ann, type_kind: TypeKind<'a>) -> (ty: Type<'a>)
        requires
            old(self).wf(),
        ensures
            final(self).wf(),
            final(self).owns_type(ty),
            final(self).extends(old(self)),
            ty.0.value() == ann,
            ty.1.value().key_of() == type_kind.key_of(),
            final(self).expr_kinds() == old(self).expr_kinds(),
            final(self).binder_kinds() == old(self).binder_kinds(),
            final(self).strings() == old(self).strings(),
    {
        let ghost annotations = self.ann_interner.view();
        let ghost kinds = self.type_kind_interner.view();
        let ghost given = ann;
        let ann = self.ann_interner.intern(ann);
        let type_kind = self.type_kind_interner.intern(type_kind);
        proof {
            lemma_ann_key(ann.value(), given);
            lemma_grown(annotations, self.ann_interner.view(), ann.value());
            lemma_grown(kinds, self.type_kind_interner.view(), type_kind.value());
        }
        Type(ann, type_kind)
    }

    /// The application of the type `function` to the type `argument`.
    pub fn make_type_application(&mut self, ann: Ann, function: Type<'a>, argument: Type<'a>) -> (ty:
        Type<'a>)
        requires
            old(self).wf(),
        ensures
            final(self).wf(),
            final(self).owns_type(ty),
            final(self).extends(old(self)),
            ty.0.value() == ann,
            ty.1.value().key_of() == TypeKind::Application(
                ApplicationKind::TypeApplication,
                function,
                argument,
            ).key_of(),
    {
        self.make_type(
            ann,
            TypeKind::Application(ApplicationKind::TypeApplication, function, argument),
        )
    }

    /// The application of the type `function` to the kind `argument`.
    pub fn make_kind_application(&mut self, ann: Ann, function: Type<'a>, argument: Type<'a>) -> (ty:
        Type<'a>)
        requires
            old(self).wf(),
        ensures
            final(self).wf(),
            final(self).owns_type(ty),
            final(self).extends(old(self)),
            ty.0.value() == ann,
            ty.1.value().key_of() == TypeKind::Application(
                ApplicationKind::KindApplication,
                function,
                argument,
            ).key_of(),
    {
        self.make_type(
            ann,
            TypeKind::Application(ApplicationKind::KindApplication, function, argument),
        )
    }

    /// The type constructor `name`.
    pub fn make_constructor(&mut self, ann: Ann, name: &str) -> (ty: Type<'a>)
        requires
            old(self).wf(),
        ensures
            final(self).wf(),
            final(self).owns_type(ty),
            final(self).extends(old(self)),
            ty.0.value() == ann,
            exists|handle: InternedString<'a>|
                final(self).owns_string(handle) && handle.text() == name@
                    && ty.1.value().key_of() == #[trigger] TypeKind::Constructor(handle).key_of(),
    {
        let name = self.intern_string(name);
        let ty = self.make_type(ann, TypeKind::Constructor(name));
        assert(ty.1.value().key_of() == TypeKind::Constructor(name).key_of());
        ty
    }

    /// The type `typ` for all `name` of the kind `knd`.
    pub fn make_forall(&mut self, ann: Ann, name: &str, knd: Option<Type<'a>>, typ: Type<'a>) -> (ty:
        Type<'a>)
        requires
            old(self).wf(),
        ensures
            final(self).wf(),
            final(self).owns_type(ty),
            final(self).extends(old(self)),
            ty.0.value() == ann,
            exists|handle: InternedString<'a>|
                final(self).owns_string(handle) && handle.text() == name@
                    && ty.1.value().key_of() == #[trigger] TypeKind::Quantifier(
                    QuantifierKind::Universal(handle),
                    knd,
                    typ,
                ).key_of(),
    {
        let name = self.intern_string(name);
        let ty = self.make_type(ann, TypeKind::Quantifier(QuantifierKind::Universal(name), knd, typ));
        assert(ty.1.value().key_of() == TypeKind::Quantifier(
            QuantifierKind::Universal(name),
            knd,
            typ,
        ).key_of());
        ty
    }

    /// The type `typ` for some `name` of the kind `knd`.
    pub fn make_exists(&mut self, ann: Ann, name: &str, knd: Option<Type<'a>>, typ: Type<'a>) -> (ty:
        Type<'a>)
        requires
            old(self).wf(),
        ensures
            final(self).wf(),
            final(self).owns_type(ty),
            final(self).extends(old(self)),
            ty.0.value() == ann,
            exists|handle: InternedString<'a>|
                final(self).owns_string(handle) && handle.text() == name@
                    && ty.1.value().key_of() == #[trigger] TypeKind::Quantifier(
                    QuantifierKind::Existential(handle),
                    knd,
                    typ,
                ).key_of(),
    {
        let name = self.intern_string(name);
        let ty = self.make_type(
            ann,
            TypeKind::Quantifier(QuantifierKind::Existential(name), knd, typ),
        );
        assert(ty.1.value().key_of() == TypeKind::Quantifier(
            QuantifierKind::Existential(name),
            knd,
            typ,
        ).key_of());
        ty
    }

    /// The type of functions from `argument` to `result`.
    pub fn make_function(&mut self, ann: Ann, argument: Type<'a>, result: Type<'a>) -> (ty: Type<'a>)
        requires
            old(self).wf(),
        ensures
            final(self).wf(),
            final(self).owns_type(ty),
            final(self).extends(old(self)),
            ty.0.value() == ann,
            ty.1.value().key_of() == TypeKind::Function(argument, result).key_of(),
    {
        self.make_type(ann, TypeKind::Function(argument, result))
    }

    /// The type `typ` with its kind `knd`.
    pub fn make_kinded(&mut self, ann: Ann, typ: Type<'a>, knd: Type<'a>) -> (ty: Type<'a>)
        requires
            old(self).wf(),
        ensures
            final(self).wf(),
            final(self).owns_type(ty),
            final(self).extends(old(self)),
            ty.0.value() == ann,
            ty.1.value().key_of() == TypeKind::Kinded(typ, knd).key_of(),
    {
        self.make_type(ann, TypeKind::Kinded(typ, knd))
    }

    /// The skolem variable `name`.
    pub fn make_skolem(&mut self, ann: Ann, name: &str) -> (ty: Type<'a>)
        requires
            old(self).wf(),
        ensures
            final(self).wf(),
            final(self).owns_type(ty),
            final(self).extends(old(self)),
            ty.0.value() == ann,
            exists|handle: InternedString<'a>|
                final(self).owns_string(handle) && handle.text() == name@
                    && ty.1.value().key_of() == #[trigger] TypeKind::Variable(
                    VariableKind::Skolem(handle),
                ).key_of(),
    {
        let name = self.intern_string(name);
        let ty = self.make_type(ann, TypeKind::Variable(VariableKind::Skolem(name)));
        assert(ty.1.value().key_of() == TypeKind::Variable(VariableKind::Skolem(name)).key_of());
        ty
    }

    /// The syntactic variable `name`.
    pub fn make_variable(&mut self, ann: Ann, name: &str) -> (ty: Type<'a>)
        requires
            old(self).wf(),
        ensures
            final(self).wf(),
            final(self).owns_type(ty),
            final(self).extends(old(self)),
            ty.0.value() == ann,
            exists|handle: InternedString<'a>|
                final(self).owns_string(handle) && handle.text() == name@
                    && ty.1.value().key_of() == #[trigger] TypeKind::Variable(
                    VariableKind::Syntactic(handle),
                ).key_of(),
    {
        let name = self.intern_string(name);
        let ty = self.make_type(ann, TypeKind::Variable(VariableKind::Syntactic(name)));
        assert(ty.1.value().key_of() == TypeKind::Variable(VariableKind::Syntactic(name)).key_of());
        ty
    }

    /// The unification variable `name`.
    pub fn make_unification(&mut self, ann: Ann, name: u32) -> (ty: Type<'a>)
        requires
            old(self).wf(),
        ensures
            final(self).wf(),
            final(self).owns_type(ty),
            final(self).extends(old(self)),
            ty.0.value() == ann,
            ty.1.value().key_of() == TypeKind::Variable(VariableKind::Unification(name)).key_of(),
    {
        self.make_type(ann, TypeKind::Variable(VariableKind::Unification(name)))
    }
}

/// Annotations with the same key are the same.
pub proof fn lemma_ann_key(a: Ann, b: Ann)
    requires
        a.key_of() == b.key_of(),
    ensures
        a == b,
{
    assert(a.key_of()[0] == b.key_of()[0]);
    if a is FromSource {
        assert(a.key_of()[1] == b.key_of()[1]);
        assert(a.key_of()[2] == b.key_of()[2]);
    }
}

proof fn lemma_grown<T>(before: Seq<T>, after: Seq<T>, value: T)
    requires
        after == before || after == before.push(value),
    ensures
        grown(before, after),
{
    if after != before {
        assert(before.push(value).drop_last() =~= before);
    }
}

} // verus!
