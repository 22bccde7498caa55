//! Syntax trees, and the mathematical trees that contracts speak of.

use vstd::prelude::*;
use vstd::std_specs::cmp::PartialEqSpecImpl;

verus! {

/// A syntax tree as contracts see it: names are sequences of characters and
/// integer literals are mathematical integers.
pub enum Tree {
    /// An integer literal.
    Integer(int),
    /// A reference to a name.
    Ident(Seq<char>),
    /// `left + right`.
    Addition(Box<Tree>, Box<Tree>),
    /// `left - right`.
    Subtraction(Box<Tree>, Box<Tree>),
    /// `left * right`.
    Multiplication(Box<Tree>, Box<Tree>),
    /// `if condition { consequent } else { alternative }`.
    If(Box<Tree>, Box<Tree>, Box<Tree>),
    /// `let name = value;` clauses, in source order, and the expression that
    /// follows them.
    Bindings(Seq<(Seq<char>, Tree)>, Box<Tree>),
}

/// A name paired with the expression whose value it stands for.
#[derive(Debug)]
pub struct Binding {
    /// The name that is bound.
    pub name: String,
    /// The expression that the name stands for.
    pub value: ExprKind,
}

/// A node of the syntax tree. A node owns its children.
#[derive(Debug)]
pub enum ExprKind {
    /// An integer literal.
    Integer(i32),
    /// A reference to a name.
    Ident(String),
    /// `left + right`.
    Addition(Box<ExprKind>, Box<ExprKind>),
    /// `left - right`.
    Subtraction(Box<ExprKind>, Box<ExprKind>),
    /// `left * right`.
    Multiplication(Box<ExprKind>, Box<ExprKind>),
    /// `if condition { consequent } else { alternative }`.
    If(Box<ExprKind>, Box<ExprKind>, Box<ExprKind>),
    /// One or more bindings, in source order, and the expression that
    /// follows them.
    Bindings(Vec<Binding>, Box<ExprKind>),
}

impl ExprKind {
    /// The mathematical tree that this node stands for.
    pub open spec fn tree(&self) -> Tree
        decreases self,
    {
        match self {
            ExprKind::Integer(i) => Tree::Integer(*i as int),
            ExprKind::Ident(name) => Tree::Ident(name@),
            ExprKind::Addition(l, r) => Tree::Addition(Box::new(l.tree()), Box::new(r.tree())),
            ExprKind::Subtraction(l, r) => Tree::Subtraction(
                Box::new(l.tree()),
                Box::new(r.tree()),
            ),
            ExprKind::Multiplication(l, r) => Tree::Multiplication(
                Box::new(l.tree()),
                Box::new(r.tree()),
            ),
            ExprKind::If(c, t, e) => Tree::If(
                Box::new(c.tree()),
                Box::new(t.tree()),
                Box::new(e.tree()),
            ),
            ExprKind::Bindings(bs, body) => Tree::Bindings(
                Seq::new(
                    bs@.len(),
                    |i: int|
                        if 0 <= i < bs@.len() {
                            (bs@[i].name@, bs@[i].value.tree())
                        } else {
                            // No clause stands outside the vector.
                            (Seq::empty(), Tree::Integer(0))
                        },
                ),
                Box::new(body.tree()),
            ),
        }
    }
}

impl View for ExprKind {
    type V = Tree;

    open spec fn view(&self) -> Tree {
        self.tree()
    }
}

impl View for Binding {
    type V = (Seq<char>, Tree);

    open spec fn view(&self) -> (Seq<char>, Tree) {
        (self.name@, self.value.tree())
    }
}

/// The two operators of the additive level.
#[derive(Clone, Copy, Debug, PartialEq, Eq, Structural)]
pub enum Level0Operator {
    /// `+`
    Plus,
    /// `-`
    Minus,
}

impl View for Level0Operator {
    type V = Level0Operator;

    open spec fn view(&self) -> Level0Operator {
        *self
    }
}

impl Level0Operator {
    /// The tree of `lhs`, the operator and `rhs`.
    pub open spec fn tree(self, lhs: Tree, rhs: Tree) -> Tree {
        match self {
            Level0Operator::Plus => Tree::Addition(Box::new(lhs), Box::new(rhs)),
            Level0Operator::Minus => Tree::Subtraction(Box::new(lhs), Box::new(rhs)),
        }
    }

    /// The node that applies the operator to `lhs` and `rhs`.
    pub fn make_expr(self, lhs: ExprKind, rhs: ExprKind) -> (r: ExprKind)
        ensures
            r == match self {
                Level0Operator::Plus => ExprKind::Addition(Box::new(lhs), Box::new(rhs)),
                Level0Operator::Minus => ExprKind::Subtraction(Box::new(lhs), Box::new(rhs)),
            },
            r@ == self.tree(lhs@, rhs@),
    {
        match self {
            Level0Operator::Plus => ExprKind::addition(lhs, rhs),
            Level0Operator::Minus => ExprKind::subtraction(lhs, rhs),
        }
    }
}

impl Binding {
    /// Binds `name` to `value`.
    pub fn new(name: String, value: ExprKind) -> (r: Binding)
        ensures
            r == (Binding { name, value }),
    {
        Binding { name, value }
    }
}

impl ExprKind {
    /// The integer literal `value`.
    pub fn integer(value: i32) -> (r: ExprKind)
        ensures
            r == ExprKind::Integer(value),
    {
        ExprKind::Integer(value)
    }

    /// A reference to `name`.
    pub fn ident(name: String) -> (r: ExprKind)
        ensures
            r == ExprKind::Ident(name),
    {
        ExprKind::Ident(name)
    }

    /// `lhs + rhs`.
    pub fn addition(lhs: ExprKind, rhs: ExprKind) -> (r: ExprKind)
        ensures
            r == ExprKind::Addition(Box::new(lhs), Box::new(rhs)),
    {
        ExprKind::Addition(Box::new(lhs), Box::new(rhs))
    }

    /// `lhs - rhs`.
    pub fn subtraction(lhs: ExprKind, rhs: ExprKind) -> (r: ExprKind)
        ensures
            r == ExprKind::Subtraction(Box::new(lhs), Box::new(rhs)),
    {
        ExprKind::Subtraction(Box::new(lhs), Box::new(rhs))
    }

    /// `lhs * rhs`.
    pub fn multiplication(lhs: ExprKind, rhs: ExprKind) -> (r: ExprKind)
        ensures
            r == ExprKind::Multiplication(Box::new(lhs), Box::new(rhs)),
    {
        ExprKind::Multiplication(Box::new(lhs), Box::new(rhs))
    }

    /// `if condition { consequent } else { alternative }`.
    pub fn if_(condition: ExprKind, consequent: ExprKind, alternative: ExprKind) -> (r: ExprKind)
        ensures
            r == ExprKind::If(Box::new(condition), Box::new(consequent), Box::new(alternative)),
    {
        ExprKind::If(Box::new(condition), Box::new(consequent), Box::new(alternative))
    }

    /// The clauses `bindings`, in order, followed by `ending`.
    pub fn bindings(bindings: Vec<Binding>, ending: ExprKind) -> (r: ExprKind)
        ensures
            r == ExprKind::Bindings(bindings, Box::new(ending)),
    {
        ExprKind::Bindings(bindings, Box::new(ending))
    }

    /// The single clause `let name = value;` followed by `ending`.
    pub fn single_binding(name: String, value: ExprKind, ending: ExprKind) -> (r: ExprKind)
        ensures
            r matches ExprKind::Bindings(bs, body) && bs@ == seq![Binding { name, value }]
                && *body == ending,
            r@ == Tree::Bindings(seq![(name@, value@)], Box::new(ending@)),
    {
        let mut bs: Vec<Binding> = Vec::new();
        bs.push(Binding::new(name, value));
        let r = ExprKind::Bindings(bs, Box::new(ending));
        assert(r@->Bindings_0 =~= seq![(name@, value@)]);
        r
    }
}

impl PartialEq for Binding {
    /// Whether both bind the same name to the same tree.
    fn eq(&self, other: &Binding) -> (r: bool)
        decreases self,
    {
        self.name == other.name && self.value.eq(&other.value)
    }
}

impl PartialEqSpecImpl for Binding {
    open spec fn obeys_eq_spec() -> bool {
        true
    }

    open spec fn eq_spec(&self, other: &Binding) -> bool {
        self@ == other@
    }
}

impl PartialEq for ExprKind {
    /// Whether both stand for the same tree.
    fn eq(&self, other: &ExprKind) -> (r: bool)
        decreases self,
    {
        match (self, other) {
            (ExprKind::Integer(i), ExprKind::Integer(j)) => *i == *j,
            (ExprKind::Ident(name), ExprKind::Ident(other_name)) => *name == *other_name,
            (ExprKind::Addition(l, r), ExprKind::Addition(ol, or)) => {
                (&**l).eq(&**ol) && (&**r).eq(&**or)
            },
            (ExprKind::Subtraction(l, r), ExprKind::Subtraction(ol, or)) => {
                (&**l).eq(&**ol) && (&**r).eq(&**or)
            },
            (ExprKind::Multiplication(l, r), ExprKind::Multiplication(ol, or)) => {
                (&**l).eq(&**ol) && (&**r).eq(&**or)
            },
            (ExprKind::If(c, t, e), ExprKind::If(oc, ot, oe)) => {
                (&**c).eq(&**oc) && (&**t).eq(&**ot) && (&**e).eq(&**oe)
            },
            (ExprKind::Bindings(bs, body), ExprKind::Bindings(obs, obody)) => {
                if bs.len() != obs.len() {
                    assert(self@->Bindings_0.len() != other@->Bindings_0.len());
                    return false;
                }
                let mut i: usize = 0;
                while i < bs.len()
                    invariant
                        self matches ExprKind::Bindings(own, _) && own == bs,
                        other matches ExprKind::Bindings(own, _) && own == obs,
                        bs.len() == obs.len(),
                        i <= bs.len(),
                        forall|j: int| 0 <= j < i ==> bs@[j]@ == obs@[j]@,
                    decreases bs.len() - i,
                {
                    if !bs[i].eq(&obs[i]) {
                        assert(self@->Bindings_0[i as int] != other@->Bindings_0[i as int]);
                        return false;
                    }
                    i += 1;
                }
                assert(self@->Bindings_0 =~= other@->Bindings_0);
                (&**body).eq(&**obody)
            },
            _ => false,
        }
    }
}

impl PartialEqSpecImpl for ExprKind {
    open spec fn obeys_eq_spec() -> bool {
        true
    }

    open spec fn eq_spec(&self, other: &ExprKind) -> bool {
        self@ == other@
    }
}

impl Clone for Binding {
    /// A copy that stands for the same name and the same tree.
    fn clone(&self) -> (res: Self)
        ensures
            res@ == self@,
        decreases self,
    {
        Binding { name: self.name.clone(), value: self.value.clone() }
    }
}

impl Clone for ExprKind {
    /// A copy that stands for the same tree.
    fn clone(&self) -> (res: Self)
        ensures
            res@ == self@,
        decreases self,
    {
        match self {
            ExprKind::Integer(i) => ExprKind::Integer(*i),
            ExprKind::Ident(name) => ExprKind::Ident(name.clone()),
            ExprKind::Addition(l, r) => ExprKind::Addition(
                Box::new((&**l).clone()),
                Box::new((&**r).clone()),
            ),
            ExprKind::Subtraction(l, r) => ExprKind::Subtraction(
                Box::new((&**l).clone()),
                Box::new((&**r).clone()),
            ),
            ExprKind::Multiplication(l, r) => ExprKind::Multiplication(
                Box::new((&**l).clone()),
                Box::new((&**r).clone()),
            ),
            ExprKind::If(c, t, e) => ExprKind::If(
                Box::new((&**c).clone()),
                Box::new((&**t).clone()),
                Box::new((&**e).clone()),
            ),
            ExprKind::Bindings(bs, body) => {
                let mut copies: Vec<Binding> = Vec::new();
                let mut i: usize = 0;
                while i < bs.len()
                    invariant
                        self matches ExprKind::Bindings(own, _) && own == bs,
                        i <= bs.len(),
                        copies.len() == i,
                        forall|j: int| 0 <= j < i ==> copies@[j]@ == bs@[j]@,
                    decreases bs.len() - i,
                {
                    copies.push(bs[i].clone());
                    i += 1;
                }
                let res = ExprKind::Bindings(copies, Box::new((&**body).clone()));
                assert(res@ == self@) by {
                    assert(res@->Bindings_0 =~= self@->Bindings_0);
                }
                res
            },
        }
    }
}

} // verus!
