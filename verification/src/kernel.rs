//! Where the lines that a program prints go.
use crate::text::push_char;
use vstd::prelude::*;
use vstd::string::StringExecFns;

verus! {

/// The host of a running program: it receives every printed line.
pub trait Kernel {
    /// Everything printed so far, each line followed by a line feed.
    spec fn output(&self) -> Seq<char>;

    /// The `print` intrinsic: takes one line of text.
    fn print(&mut self, text: &str)
        ensures
            final(self).output() == old(self).output() + text@ + seq!['\n'],
    ;
}

/// A kernel that keeps what is printed in memory.
pub struct BufferKernel {
    buffer: String,
}

impl View for BufferKernel {
    type V = Seq<char>;

    closed spec fn view(&self) -> Seq<char> {
        self.buffer@
    }
}

impl Default for BufferKernel {
    fn default() -> (r: Self)
        ensures
            r@ == Seq::<char>::empty(),
    {
        BufferKernel::new()
    }
}

impl BufferKernel {
    pub fn new() -> (r: Self)
        ensures
            r@ == Seq::<char>::empty(),
    {
        Self { buffer: String::new() }
    }

    /// What has been printed so far.
    pub fn buffer(&self) -> (r: &str)
        ensures
            r@ == self@,
    {
        self.buffer.as_str()
    }

    /// Ends the kernel and hands out what was printed.
    pub fn take_buffer(self) -> (r: String)
        ensures
            r@ == self@,
    {
        self.buffer
    }
}

impl Kernel for BufferKernel {
    open spec fn output(&self) -> Seq<char> {
        self@
    }

    fn print(&mut self, text: &str) {
        self.buffer.append(text);
        push_char(&mut self.buffer, '\n');
        assert(self.buffer@ =~= old(self).buffer@ + text@ + seq!['\n']);
    }
}

} // verus!
