//! The input and output channels: a store of texts.

use vstd::prelude::*;
use crate::text::{chars_of, copy_chars, join_rows, joined, rows, string_of, texts};

verus! {

/// A channel. As input it holds the tokens not yet read, the next one last;
/// as output it holds what was written, in order.
#[derive(Debug)]
pub struct IO {
    pub store: Vec<Vec<char>>,
}

impl View for IO {
    type V = Seq<Seq<char>>;

    open spec fn view(&self) -> Seq<Seq<char>> {
        rows(self.store@)
    }
}

impl IO {
    /// An empty channel.
    pub fn new() -> (io: Self)
        ensures
            io@ == Seq::<Seq<char>>::empty(),
    {
        let io = IO { store: Vec::new() };
        assert(io@ =~= Seq::<Seq<char>>::empty());
        io
    }

    /// The channel with `store` as its tokens, the first of them to be read
    /// first.
    pub fn with_store(self, store: Vec<String>) -> (io: Self)
        ensures
            io@ == texts(store@).reverse(),
    {
        let mut out: Vec<Vec<char>> = Vec::new();
        let mut i: usize = store.len();
        while i > 0
            invariant
                i <= store.len(),
                out.len() == store.len() - i,
                forall|j: int| 0 <= j < out.len() ==> #[trigger] out@[j]@ == store@[store.len() - 1 - j]@,
            decreases i,
        {
            i = i - 1;
            out.push(chars_of(store[i].as_str()));
        }
        let io = IO { store: out };
        assert(io@ =~= texts(store@).reverse());
        io
    }

    /// The number of texts held.
    pub fn len(&self) -> (n: usize)
        ensures
            n == self@.len(),
    {
        self.store.len()
    }

    /// Takes the next token; `None` when none is left.
    pub fn pop(&mut self) -> (token: Option<Vec<char>>)
        ensures
            old(self)@.len() == 0 ==> token is None && final(self)@ == old(self)@,
            old(self)@.len() > 0 ==> (token matches Some(t) && t@ == old(self)@.last()
                && final(self)@ == old(self)@.drop_last()),
    {
        let token = self.store.pop();
        assert(self@ =~= if old(self)@.len() > 0 {
            old(self)@.drop_last()
        } else {
            old(self)@
        });
        token
    }

    /// Appends a text.
    pub fn push(&mut self, s: Vec<char>)
        ensures
            final(self)@ == old(self)@.push(s@),
    {
        self.store.push(s);
        assert(self@ =~= old(self)@.push(s@));
    }

    /// All the texts held, one after the other.
    pub fn get(&self) -> (s: String)
        ensures
            s@ == joined(self@, Seq::empty()),
    {
        let sep: Vec<char> = Vec::new();
        let out = join_rows(&self.store, &sep);
        string_of(&out)
    }

    /// A channel with the same texts.
    pub fn duplicate(&self) -> (io: Self)
        ensures
            io@ == self@,
    {
        let mut out: Vec<Vec<char>> = Vec::new();
        let mut i: usize = 0;
        while i < self.store.len()
            invariant
                i <= self.store.len(),
                out.len() == i,
                forall|j: int| 0 <= j < i ==> #[trigger] out@[j]@ == self.store@[j]@,
            decreases self.store.len() - i,
        {
            out.push(copy_chars(&self.store[i]));
            i = i + 1;
        }
        let io = IO { store: out };
        assert(io@ =~= self@);
        io
    }
}

} // verus!
