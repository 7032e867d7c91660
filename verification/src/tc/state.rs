//! The state of the type checker: its context and its supply of names.

use crate::ast::ty::Type;
use crate::ast::Ann;
use crate::tc::context::{Context, Element, SourceType};
use crate::tc::fresh::Fresh;
use std::rc::Rc;
use vstd::prelude::*;

verus! {

/// The context and the supply of names.
pub struct State {
    pub context: Context,
    pub fresh: Fresh,
}

impl State {
    /// A fresh unification variable of the given kind: its name, the type
    /// that stands for it, and the element that declares it.
    pub fn fresh_unsolved(&mut self, ann: Ann, kind: &Rc<Option<SourceType>>) -> (made: (
        i32,
        Rc<SourceType>,
        Element,
    ))
        requires
            old(self).fresh.next() < i32::MAX,
        ensures
            made.0 == old(self).fresh.next(),
            final(self).fresh.next() == old(self).fresh.next() + 1,
            final(self).context == old(self).context,
            *made.1 == (Type::Unsolved { ann, name: made.0 }),
            made.2 == (Element::Unsolved { name: made.0, kind: *kind }),
    {
        let name = self.fresh.fresh() as i32;
        let ty = Rc::new(Type::Unsolved { ann, name });
        let elem = Element::Unsolved { name, kind: Rc::clone(kind) };
        (name, ty, elem)
    }
}

} // verus!
