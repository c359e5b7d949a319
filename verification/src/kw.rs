//! The reserved words of the language.
use crate::token::{Token, TokenView};
use crate::word::Word;
use vstd::prelude::*;

verus! {

#[derive(Copy, Clone, PartialEq, Eq, Structural, PartialOrd, Ord, Hash, Debug)]
pub enum Keyword {
    True,
    False,
    Nil,
    Print,
    Var,
    And,
    Or,
    If,
    Else,
    While,
    For,
    Fun,
    Return,
}

/// How a keyword is written.
pub open spec fn keyword_text(kw: Keyword) -> Seq<char> {
    match kw {
        Keyword::True => "true"@,
        Keyword::False => "false"@,
        Keyword::Nil => "nil"@,
        Keyword::Print => "print"@,
        Keyword::Var => "var"@,
        Keyword::And => "and"@,
        Keyword::Or => "or"@,
        Keyword::If => "if"@,
        Keyword::Else => "else"@,
        Keyword::While => "while"@,
        Keyword::For => "for"@,
        Keyword::Fun => "fun"@,
        Keyword::Return => "return"@,
    }
}

/// All keywords, in the order of their declaration.
pub open spec fn all_keywords() -> Seq<Keyword> {
    seq![
        Keyword::True,
        Keyword::False,
        Keyword::Nil,
        Keyword::Print,
        Keyword::Var,
        Keyword::And,
        Keyword::Or,
        Keyword::If,
        Keyword::Else,
        Keyword::While,
        Keyword::For,
        Keyword::Fun,
        Keyword::Return,
    ]
}

/// Whether `text` is how some keyword is written.
pub open spec fn is_keyword(text: Seq<char>) -> bool {
    exists|i: int| 0 <= i < all_keywords().len() && #[trigger] keyword_text(all_keywords()[i]) == text
}

impl Keyword {
    pub fn all() -> (r: Vec<Keyword>)
        ensures
            r@ == all_keywords(),
    {
        let r = vec![
            Keyword::True,
            Keyword::False,
            Keyword::Nil,
            Keyword::Print,
            Keyword::Var,
            Keyword::And,
            Keyword::Or,
            Keyword::If,
            Keyword::Else,
            Keyword::While,
            Keyword::For,
            Keyword::Fun,
            Keyword::Return,
        ];
        assert(r@ =~= all_keywords());
        r
    }

    /// How the keyword is written.
    pub fn str(self) -> (r: &'static str)
        ensures
            r@ == keyword_text(self),
    {
        match self {
            Keyword::True => "true",
            Keyword::False => "false",
            Keyword::Nil => "nil",
            Keyword::Print => "print",
            Keyword::Var => "var",
            Keyword::And => "and",
            Keyword::Or => "or",
            Keyword::If => "if",
            Keyword::Else => "else",
            Keyword::While => "while",
            Keyword::For => "for",
            Keyword::Fun => "fun",
            Keyword::Return => "return",
        }
    }

    /// This keyword, if `token` is it.
    pub fn test(self, token: &Token) -> (r: Option<Keyword>)
        ensures
            r == if token@ == TokenView::Alphabetic(keyword_text(self)) {
                Some(self)
            } else {
                None
            },
    {
        match token {
            Token::Alphabetic(word) => {
                if word.string == self.word().string {
                    Some(self)
                } else {
                    None
                }
            },
            _ => None,
        }
    }

    /// The keyword as a word.
    pub fn word(self) -> (r: Word)
        ensures
            r@ == keyword_text(self),
    {
        Word::intern(self.str())
    }
}

/// The table of keywords: each with the word that it is written as.
#[derive(Debug)]
pub struct Keywords {
    entries: Vec<(Word, Keyword)>,
}

impl Keywords {
    /// The table holds every keyword, under its word, in order.
    pub closed spec fn well_formed(&self) -> bool {
        &&& self.entries@.len() == all_keywords().len()
        &&& forall|i: int|
            0 <= i < self.entries@.len() ==> (#[trigger] self.entries@[i]).1 == all_keywords()[i]
                && self.entries@[i].0@ == keyword_text(all_keywords()[i])
    }

    /// The keyword that is written as `word`, if there is one.
    pub fn get(&self, word: &Word) -> (r: Option<Keyword>)
        requires
            self.well_formed(),
        ensures
            match r {
                Some(kw) => keyword_text(kw) == word@,
                None => !is_keyword(word@),
            },
    {
        let mut i: usize = 0;
        while i < self.entries.len()
            invariant
                self.well_formed(),
                i <= self.entries@.len(),
                forall|j: int| 0 <= j < i ==> #[trigger] keyword_text(all_keywords()[j]) != word@,
            decreases self.entries@.len() - i,
        {
            if self.entries[i].0.string == word.string {
                return Some(self.entries[i].1);
            }
            i += 1;
        }
        None
    }
}

/// The table of keywords.
pub fn keywords() -> (r: Keywords)
    ensures
        r.well_formed(),
{
    let all = Keyword::all();
    let mut entries: Vec<(Word, Keyword)> = Vec::new();
    let mut i: usize = 0;
    while i < all.len()
        invariant
            all@ == all_keywords(),
            i <= all.len(),
            entries.len() == i,
            forall|j: int|
                0 <= j < i ==> (#[trigger] entries@[j]).1 == all_keywords()[j] && entries@[j].0@
                    == keyword_text(all_keywords()[j]),
        decreases all.len() - i,
    {
        entries.push((all[i].word(), all[i]));
        i += 1;
    }
    Keywords { entries }
}

} // verus!
