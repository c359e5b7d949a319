//! The operators of the language.
use vstd::prelude::*;

verus! {

/// An operator. Those of two characters come first.
#[derive(Clone, Copy, Debug, PartialEq, Eq, Structural, PartialOrd, Ord, Hash)]
pub enum Op {
    EqualEqual,
    NotEqual,
    GreaterEqual,
    LessEqual,
    Plus,
    Minus,
    Slash,
    Star,
    Less,
    Greater,
    Bang,
    Equal,
}

/// How an operator is written.
pub open spec fn op_text(op: Op) -> Seq<char> {
    match op {
        Op::EqualEqual => seq!['=', '='],
        Op::NotEqual => seq!['!', '='],
        Op::GreaterEqual => seq!['>', '='],
        Op::LessEqual => seq!['<', '='],
        Op::Plus => seq!['+'],
        Op::Minus => seq!['-'],
        Op::Slash => seq!['/'],
        Op::Star => seq!['*'],
        Op::Less => seq!['<'],
        Op::Greater => seq!['>'],
        Op::Bang => seq!['!'],
        Op::Equal => seq!['='],
    }
}

/// All operators, in the order of their declaration.
pub open spec fn all_ops() -> Seq<Op> {
    seq![
        Op::EqualEqual,
        Op::NotEqual,
        Op::GreaterEqual,
        Op::LessEqual,
        Op::Plus,
        Op::Minus,
        Op::Slash,
        Op::Star,
        Op::Less,
        Op::Greater,
        Op::Bang,
        Op::Equal,
    ]
}

impl Op {
    /// All operators, the longest first.
    pub fn all() -> (r: Vec<Op>)
        ensures
            r@ == all_ops(),
    {
        let r = vec![
            Op::EqualEqual,
            Op::NotEqual,
            Op::GreaterEqual,
            Op::LessEqual,
            Op::Plus,
            Op::Minus,
            Op::Slash,
            Op::Star,
            Op::Less,
            Op::Greater,
            Op::Bang,
            Op::Equal,
        ];
        assert(r@ =~= all_ops());
        r
    }

    /// The first character of the operator.
    pub fn first(self) -> (r: char)
        ensures
            r == op_text(self)[0],
    {
        match self {
            Op::EqualEqual => '=',
            Op::NotEqual => '!',
            Op::GreaterEqual => '>',
            Op::LessEqual => '<',
            Op::Plus => '+',
            Op::Minus => '-',
            Op::Slash => '/',
            Op::Star => '*',
            Op::Less => '<',
            Op::Greater => '>',
            Op::Bang => '!',
            Op::Equal => '=',
        }
    }

    /// The second character of the operator, if it has one: always `=`.
    pub fn second(self) -> (r: Option<char>)
        ensures
            match r {
                Some(c) => op_text(self).len() == 2 && op_text(self)[1] == c,
                None => op_text(self).len() == 1,
            },
    {
        match self {
            Op::EqualEqual | Op::NotEqual | Op::GreaterEqual | Op::LessEqual => Some('='),
            _ => None,
        }
    }

    /// How the operator is written.
    pub fn str(self) -> (r: &'static str)
        ensures
            r@ == op_text(self),
    {
        proof {
            reveal_strlit("==");
            reveal_strlit("!=");
            reveal_strlit(">=");
            reveal_strlit("<=");
            reveal_strlit("+");
            reveal_strlit("-");
            reveal_strlit("/");
            reveal_strlit("*");
            reveal_strlit("<");
            reveal_strlit(">");
            reveal_strlit("!");
            reveal_strlit("=");
        }
        let r = match self {
            Op::EqualEqual => "==",
            Op::NotEqual => "!=",
            Op::GreaterEqual => ">=",
            Op::LessEqual => "<=",
            Op::Plus => "+",
            Op::Minus => "-",
            Op::Slash => "/",
            Op::Star => "*",
            Op::Less => "<",
            Op::Greater => ">",
            Op::Bang => "!",
            Op::Equal => "=",
        };
        assert(r@ =~= op_text(self));
        r
    }
}

/// No operator is written longer than one that is declared before it.
pub proof fn check(i: int, j: int)
    requires
        0 <= i <= j < all_ops().len(),
    ensures
        op_text(all_ops()[i]).len() >= op_text(all_ops()[j]).len(),
{
}

} // verus!
