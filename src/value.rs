use vstd::prelude::*;

verus! {

/// A runtime literal. A number is the bit pattern of an IEEE-754 double;
/// text is a sequence of UTF-8 bytes.
#[derive(Clone, Debug, PartialEq)]
pub enum Literal {
    Num(u64),
    Bool(bool),
    String(Vec<u8>),
    Nil,
}

/// The mathematical form of a literal.
pub enum Lit {
    Num(u64),
    Bool(bool),
    Text(Seq<u8>),
    Nil,
}

impl View for Literal {
    type V = Lit;

    open spec fn view(&self) -> Lit {
        match self {
            Literal::Num(n) => Lit::Num(*n),
            Literal::Bool(b) => Lit::Bool(*b),
            Literal::String(s) => Lit::Text(s@),
            Literal::Nil => Lit::Nil,
        }
    }
}

/// A value held in the arena: a literal, or a reference to a variable by name
/// (with the source position of the read when the program carries positions).
#[derive(Clone, Debug, PartialEq)]
pub enum Value {
    Variable(Vec<u8>, Option<i32>),
    Literal(Literal),
}

/// The mathematical form of a value.
pub enum Val {
    Var(Seq<u8>, Option<i32>),
    Lit(Lit),
}

impl View for Value {
    type V = Val;

    open spec fn view(&self) -> Val {
        match self {
            Value::Variable(name, pos) => Val::Var(name@, *pos),
            Value::Literal(l) => Val::Lit(l@),
        }
    }
}

/// A copy of a byte vector.
pub fn copy_bytes(v: &Vec<u8>) -> (r: Vec<u8>)
    ensures
        r@ == v@,
{
    let mut r: Vec<u8> = Vec::new();
    let mut i: usize = 0;
    while i < v.len()
        invariant
            i <= v@.len(),
            r@ == v@.subrange(0, i as int),
        decreases v@.len() - i,
    {
        r.push(v[i]);
        i = i + 1;
        proof {
            assert(r@ =~= v@.subrange(0, i as int));
        }
    }
    proof {
        assert(v@.subrange(0, v@.len() as int) =~= v@);
    }
    r
}

impl Literal {
    /// A deep copy.
    pub fn copy(&self) -> (r: Literal)
        ensures
            r@ == self@,
    {
        match self {
            Literal::Num(n) => Literal::Num(*n),
            Literal::Bool(b) => Literal::Bool(*b),
            Literal::String(s) => Literal::String(copy_bytes(s)),
            Literal::Nil => Literal::Nil,
        }
    }
}

} // verus!
