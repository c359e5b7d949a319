//! The instruction set and the records that hold compiled code.
use vstd::prelude::*;

verus! {

/// One captured variable of a function: where the closure finds it when it
/// is created.
#[derive(Clone, Copy, Debug, PartialEq, Eq, Structural)]
pub struct Upvalue {
    /// A slot of the enclosing frame when `is_local`, otherwise an index into
    /// the enclosing closure's own captured variables.
    pub index: usize,
    pub is_local: bool,
}

impl Upvalue {
    pub fn new(index: usize, is_local: bool) -> (r: Upvalue)
        ensures
            r == (Upvalue { index, is_local }),
    {
        Upvalue { index, is_local }
    }
}

/// One instruction. Jump targets are absolute indices into the owning chunk.
#[derive(Debug, PartialEq, Eq)]
pub enum Code {
    Return,
    Constant(eq_float::F64),
    True,
    False,
    Add,
    Subtract,
    Multiply,
    Divide,
    Negate,
    Not,
    Equal,
    NotEqual,
    Greater,
    GreaterEqual,
    Less,
    LessEqual,
    String(String),
    Print,
    GlobalVarDeclaration { name: String },
    ReadGlobalVariable { name: String },
    ReadLocalVariable { index_in_stack: usize },
    Nil,
    WriteGlobalVariable { name: String },
    WriteLocalVariable { index_in_stack: usize },
    Pop,
    JumpIfFalse(usize),
    Jump(usize),
    Call { arity: usize },
    Closure { function: CompiledFunction, upvalues: Vec<Upvalue> },
    ReadUpvalue { index: usize },
    WriteUpvalue { index: usize },
    CloseUpvalue,
}

/// An append-only sequence of instructions.
#[derive(Debug, PartialEq, Eq)]
pub struct Chunk {
    code: Vec<Code>,
}

/// A function template: what the compiler produces for one function body.
#[derive(Debug, PartialEq, Eq)]
pub struct CompiledFunction {
    pub name: String,
    pub arity: usize,
    pub chunk: Chunk,
    /// How many variables a closure over this template captures.
    pub upvalue_count: usize,
}

/// An instruction as a mathematical value.
pub enum CodeView {
    Return,
    Constant(eq_float::F64),
    True,
    False,
    Add,
    Subtract,
    Multiply,
    Divide,
    Negate,
    Not,
    Equal,
    NotEqual,
    Greater,
    GreaterEqual,
    Less,
    LessEqual,
    String(Seq<char>),
    Print,
    GlobalVarDeclaration { name: Seq<char> },
    ReadGlobalVariable { name: Seq<char> },
    ReadLocalVariable { index_in_stack: usize },
    Nil,
    WriteGlobalVariable { name: Seq<char> },
    WriteLocalVariable { index_in_stack: usize },
    Pop,
    JumpIfFalse(usize),
    Jump(usize),
    Call { arity: usize },
    Closure { function: FunctionView, upvalues: Seq<Upvalue> },
    ReadUpvalue { index: usize },
    WriteUpvalue { index: usize },
    CloseUpvalue,
}

/// A function template as a mathematical value.
pub struct FunctionView {
    pub name: Seq<char>,
    pub arity: usize,
    pub code: Seq<CodeView>,
    pub upvalue_count: usize,
}

impl View for Code {
    type V = CodeView;

    open spec fn view(&self) -> CodeView
        decreases self,
    {
        match self {
            Code::Return => CodeView::Return,
            Code::Constant(n) => CodeView::Constant(*n),
            Code::True => CodeView::True,
            Code::False => CodeView::False,
            Code::Add => CodeView::Add,
            Code::Subtract => CodeView::Subtract,
            Code::Multiply => CodeView::Multiply,
            Code::Divide => CodeView::Divide,
            Code::Negate => CodeView::Negate,
            Code::Not => CodeView::Not,
            Code::Equal => CodeView::Equal,
            Code::NotEqual => CodeView::NotEqual,
            Code::Greater => CodeView::Greater,
            Code::GreaterEqual => CodeView::GreaterEqual,
            Code::Less => CodeView::Less,
            Code::LessEqual => CodeView::LessEqual,
            Code::String(s) => CodeView::String(s@),
            Code::Print => CodeView::Print,
            Code::GlobalVarDeclaration { name } => CodeView::GlobalVarDeclaration { name: name@ },
            Code::ReadGlobalVariable { name } => CodeView::ReadGlobalVariable { name: name@ },
            Code::ReadLocalVariable { index_in_stack } => CodeView::ReadLocalVariable {
                index_in_stack: *index_in_stack,
            },
            Code::Nil => CodeView::Nil,
            Code::WriteGlobalVariable { name } => CodeView::WriteGlobalVariable { name: name@ },
            Code::WriteLocalVariable { index_in_stack } => CodeView::WriteLocalVariable {
                index_in_stack: *index_in_stack,
            },
            Code::Pop => CodeView::Pop,
            Code::JumpIfFalse(ip) => CodeView::JumpIfFalse(*ip),
            Code::Jump(ip) => CodeView::Jump(*ip),
            Code::Call { arity } => CodeView::Call { arity: *arity },
            Code::Closure { function, upvalues } => CodeView::Closure {
                function: function@,
                upvalues: upvalues@,
            },
            Code::ReadUpvalue { index } => CodeView::ReadUpvalue { index: *index },
            Code::WriteUpvalue { index } => CodeView::WriteUpvalue { index: *index },
            Code::CloseUpvalue => CodeView::CloseUpvalue,
        }
    }
}

impl View for Chunk {
    type V = Seq<CodeView>;

    closed spec fn view(&self) -> Seq<CodeView>
        decreases self,
    {
        Seq::new(
            self.code.len() as nat,
            |i: int|
                if 0 <= i < self.code.len() {
                    self.code[i]@
                } else {
                    CodeView::Nil
                },
        )
    }
}

impl View for CompiledFunction {
    type V = FunctionView;

    open spec fn view(&self) -> FunctionView
        decreases self,
    {
        FunctionView {
            name: self.name@,
            arity: self.arity,
            code: self.chunk@,
            upvalue_count: self.upvalue_count,
        }
    }
}

/// A copy of `code` with the same view.
pub fn clone_code(code: &Code) -> (r: Code)
    ensures
        r@ == code@,
    decreases code,
{
    match code {
        Code::Return => Code::Return,
        Code::Constant(n) => Code::Constant(*n),
        Code::True => Code::True,
        Code::False => Code::False,
        Code::Add => Code::Add,
        Code::Subtract => Code::Subtract,
        Code::Multiply => Code::Multiply,
        Code::Divide => Code::Divide,
        Code::Negate => Code::Negate,
        Code::Not => Code::Not,
        Code::Equal => Code::Equal,
        Code::NotEqual => Code::NotEqual,
        Code::Greater => Code::Greater,
        Code::GreaterEqual => Code::GreaterEqual,
        Code::Less => Code::Less,
        Code::LessEqual => Code::LessEqual,
        Code::String(s) => Code::String(s.clone()),
        Code::Print => Code::Print,
        Code::GlobalVarDeclaration { name } => Code::GlobalVarDeclaration { name: name.clone() },
        Code::ReadGlobalVariable { name } => Code::ReadGlobalVariable { name: name.clone() },
        Code::ReadLocalVariable { index_in_stack } => Code::ReadLocalVariable {
            index_in_stack: *index_in_stack,
        },
        Code::Nil => Code::Nil,
        Code::WriteGlobalVariable { name } => Code::WriteGlobalVariable { name: name.clone() },
        Code::WriteLocalVariable { index_in_stack } => Code::WriteLocalVariable {
            index_in_stack: *index_in_stack,
        },
        Code::Pop => Code::Pop,
        Code::JumpIfFalse(ip) => Code::JumpIfFalse(*ip),
        Code::Jump(ip) => Code::Jump(*ip),
        Code::Call { arity } => Code::Call { arity: *arity },
        Code::Closure { function, upvalues } => {
            let f = clone_function(function);
            let u = upvalues.clone();
            assert(u@ =~= upvalues@);
            Code::Closure { function: f, upvalues: u }
        },
        Code::ReadUpvalue { index } => Code::ReadUpvalue { index: *index },
        Code::WriteUpvalue { index } => Code::WriteUpvalue { index: *index },
        Code::CloseUpvalue => Code::CloseUpvalue,
    }
}

/// A copy of `function` with the same view.
pub fn clone_function(function: &CompiledFunction) -> (r: CompiledFunction)
    ensures
        r@ == function@,
    decreases function,
{
    let mut code: Vec<Code> = Vec::new();
    let mut i: usize = 0;
    while i < function.chunk.code.len()
        invariant
            i <= function.chunk.code.len(),
            code.len() == i,
            forall|j: int| 0 <= j < i ==> code[j]@ == function.chunk.code[j]@,
        decreases function.chunk.code.len() - i,
    {
        let c = clone_code(&function.chunk.code[i]);
        code.push(c);
        i += 1;
    }
    let chunk = Chunk { code };
    assert(chunk@ =~= function.chunk@);
    CompiledFunction {
        name: function.name.clone(),
        arity: function.arity,
        chunk,
        upvalue_count: function.upvalue_count,
    }
}

impl Clone for Code {
    fn clone(&self) -> (r: Self)
        ensures
            r@ == self@,
    {
        clone_code(self)
    }
}

impl Clone for CompiledFunction {
    fn clone(&self) -> (r: Self)
        ensures
            r@ == self@,
    {
        clone_function(self)
    }
}

impl Clone for Chunk {
    fn clone(&self) -> (r: Self)
        ensures
            r@ == self@,
    {
        let mut code: Vec<Code> = Vec::new();
        let mut i: usize = 0;
        while i < self.code.len()
            invariant
                i <= self.code.len(),
                code.len() == i,
                forall|j: int| 0 <= j < i ==> code[j]@ == self.code[j]@,
            decreases self.code.len() - i,
        {
            let c = clone_code(&self.code[i]);
            code.push(c);
            i += 1;
        }
        let chunk = Chunk { code };
        assert(chunk@ =~= self@);
        chunk
    }
}

impl Default for Chunk {
    fn default() -> (r: Self)
        ensures
            r@ == Seq::<CodeView>::empty(),
    {
        let chunk = Chunk { code: Vec::new() };
        assert(chunk@ =~= Seq::<CodeView>::empty());
        chunk
    }
}

impl Chunk {
    /// A chunk has no more instructions than an index can say.
    pub proof fn lemma_bounded(&self)
        ensures
            self@.len() <= usize::MAX,
    {
        assert(self@.len() == self.code@.len());
        assert(self.code.len() <= usize::MAX);
    }

    /// Appends `byte` and returns the index it was written at.
    pub fn emit_byte(&mut self, byte: Code) -> (index: usize)
        ensures
            final(self)@ == old(self)@.push(byte@),
            index == old(self)@.len(),
    {
        self.code.push(byte);
        assert(self@ =~= old(self)@.push(byte@));
        self.code.len() - 1
    }

    /// A copy of the instruction at `ip`.
    pub fn read_byte(&self, ip: usize) -> (r: Code)
        requires
            ip < self@.len(),
        ensures
            r@ == self@[ip as int],
    {
        clone_code(&self.code[ip])
    }

    /// The instruction at `ip`, for rewriting in place.
    pub fn read_byte_mut(&mut self, ip: usize) -> (r: &mut Code)
        requires
            ip < old(self)@.len(),
        ensures
            (*r)@ == old(self)@[ip as int],
            final(self)@ == old(self)@.update(ip as int, (*final(r))@),
    {
        &mut self.code[ip]
    }

    /// Replaces the instruction at `ip`.
    pub fn patch(&mut self, ip: usize, byte: Code)
        requires
            ip < old(self)@.len(),
        ensures
            final(self)@ == old(self)@.update(ip as int, byte@),
    {
        self.code[ip] = byte;
        assert(self@ =~= old(self)@.update(ip as int, byte@));
    }

    pub fn len(&self) -> (n: usize)
        ensures
            n == self@.len(),
    {
        self.code.len()
    }

    pub fn is_empty(&self) -> (b: bool)
        ensures
            b == (self@.len() == 0),
    {
        self.code.len() == 0
    }
}

} // verus!
