//! The boolean expression tree, generic in its atoms.
use vstd::prelude::*;

verus! {

/// A boolean expression over atoms of type `T`.
#[derive(Debug)]
pub enum Expr<T> {
    True,
    False,
    Atom(T),
    And(Box<Expr<T>>, Box<Expr<T>>),
    Or(Box<Expr<T>>, Box<Expr<T>>),
    Diff(Box<Expr<T>>, Box<Expr<T>>),
}

/// Mathematical model of an expression over atom models of type `A`.
pub enum ExprV<A> {
    True,
    False,
    Atom(A),
    And(Box<ExprV<A>>, Box<ExprV<A>>),
    Or(Box<ExprV<A>>, Box<ExprV<A>>),
    Diff(Box<ExprV<A>>, Box<ExprV<A>>),
}

impl<T: View> View for Expr<T> {
    type V = ExprV<T::V>;

    open spec fn view(&self) -> ExprV<T::V>
        decreases self,
    {
        match self {
            Expr::True => ExprV::True,
            Expr::False => ExprV::False,
            Expr::Atom(a) => ExprV::Atom(a@),
            Expr::And(x, y) => ExprV::And(Box::new((**x).view()), Box::new((**y).view())),
            Expr::Or(x, y) => ExprV::Or(Box::new((**x).view()), Box::new((**y).view())),
            Expr::Diff(x, y) => ExprV::Diff(Box::new((**x).view()), Box::new((**y).view())),
        }
    }
}

} // verus!
