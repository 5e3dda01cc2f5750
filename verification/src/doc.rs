//! A document under construction: text appended piece by piece, with
//! the pieces remembered for the proofs.
use vstd::prelude::*;
use vstd::string::*;
use crate::text::{push_dec, push_hex16, push_int};

verus! {

use crate::text::{dec, hex, sdec};

/// The pieces one after the other.
pub open spec fn joined(parts: Seq<Seq<char>>) -> Seq<char>
    decreases parts.len(),
{
    if parts.len() == 0 {
        Seq::empty()
    } else {
        joined(parts.drop_last()) + parts.last()
    }
}

/// Joining one more piece.
pub proof fn lemma_joined_push(parts: Seq<Seq<char>>, piece: Seq<char>)
    ensures
        joined(parts.push(piece)) == joined(parts) + piece,
{
    assert(parts.push(piece).drop_last() =~= parts);
}

/// Joining two runs of pieces.
pub proof fn lemma_joined_append(a: Seq<Seq<char>>, b: Seq<Seq<char>>)
    ensures
        joined(a + b) == joined(a) + joined(b),
    decreases b.len(),
{
    if b.len() == 0 {
        assert(a + b =~= a);
        assert(joined(a) + Seq::<char>::empty() =~= joined(a));
    } else {
        lemma_joined_append(a, b.drop_last());
        assert((a + b).drop_last() =~= a + b.drop_last());
        assert(joined(a) + joined(b.drop_last()) + b.last() =~= joined(a) + (joined(b.drop_last())
            + b.last()));
    }
}

/// A text with something before it and something behind it.
pub open spec fn around(before: Seq<char>, text: Seq<char>, behind: Seq<char>) -> Seq<char> {
    before + text + behind
}

/// The text stands somewhere in the document, unbroken.
pub open spec fn holds(document: Seq<char>, text: Seq<char>) -> bool {
    exists|before: Seq<char>, behind: Seq<char>| document == #[trigger] around(before, text, behind)
}

/// What a part of a document holds, the document holds.
pub proof fn lemma_holds_through(document: Seq<char>, part: Seq<char>, text: Seq<char>)
    requires
        holds(document, part),
        holds(part, text),
    ensures
        holds(document, text),
{
    let (a, d) = choose|a: Seq<char>, d: Seq<char>| document == #[trigger] around(a, part, d);
    let (b, c) = choose|b: Seq<char>, c: Seq<char>| part == #[trigger] around(b, text, c);
    assert(document =~= around(a + b, text, c + d));
}

/// A document holds every run of its pieces.
pub proof fn lemma_runs_are_held(front: Seq<Seq<char>>, run: Seq<Seq<char>>, rest: Seq<Seq<char>>)
    ensures
        holds(joined(front + run + rest), joined(run)),
{
    lemma_joined_append(front + run, rest);
    lemma_joined_append(front, run);
    assert(joined(front + run + rest) == around(joined(front), joined(run), joined(rest)));
}

/// A document holds every stretch of its pieces.
pub proof fn lemma_stretches_are_held(parts: Seq<Seq<char>>, from: int, to: int)
    requires
        0 <= from <= to <= parts.len(),
    ensures
        holds(joined(parts), joined(parts.subrange(from, to))),
{
    let (front, run, rest) = (parts.take(from), parts.subrange(from, to), parts.skip(to));
    lemma_runs_are_held(front, run, rest);
    assert(front + run + rest =~= parts);
}

/// A document holds what it begins with and what it ends with.
pub proof fn lemma_ends_are_held(a: Seq<Seq<char>>, b: Seq<Seq<char>>)
    ensures
        holds(joined(a + b), joined(a)),
        holds(joined(a + b), joined(b)),
{
    let none = Seq::<Seq<char>>::empty();
    lemma_runs_are_held(none, a, b);
    lemma_runs_are_held(a, b, none);
    assert(none + a + b =~= a + b);
    assert(a + b + none =~= a + b);
}

/// One piece is its own text.
pub proof fn lemma_single(text: Seq<char>)
    ensures
        joined(seq![text]) == text,
{
    let one = seq![text];
    let none = Seq::<Seq<char>>::empty();
    assert(one.drop_last() =~= none);
    assert(joined(none) == Seq::<char>::empty());
    assert(joined(one) == joined(none) + text);
    assert(joined(none) + text =~= text);
}

/// The document.
pub struct Doc {
    text: String,
    parts: Ghost<Seq<Seq<char>>>,
}

impl View for Doc {
    type V = Seq<Seq<char>>;

    closed spec fn view(&self) -> Seq<Seq<char>> {
        self.parts@
    }
}

impl Doc {
    /// The text is its pieces.
    pub closed spec fn wf(&self) -> bool {
        self.text@ == joined(self.parts@)
    }

    /// An empty document.
    pub fn new() -> (d: Doc)
        ensures
            d.wf(),
            d@ == Seq::<Seq<char>>::empty(),
    {
        Doc { text: String::new(), parts: Ghost(Seq::empty()) }
    }

    /// Append a string.
    pub fn put(&mut self, s: &str)
        requires
            old(self).wf(),
        ensures
            final(self).wf(),
            final(self)@ == old(self)@.push(s@),
    {
        proof {
            lemma_joined_push(self.parts@, s@);
        }
        self.text.append(s);
        self.parts = Ghost(self.parts@.push(s@));
    }

    /// Append a decimal numeral.
    pub fn put_dec(&mut self, v: u64)
        requires
            old(self).wf(),
        ensures
            final(self).wf(),
            final(self)@ == old(self)@.push(dec(v as nat)),
    {
        proof {
            lemma_joined_push(self.parts@, dec(v as nat));
        }
        push_dec(&mut self.text, v);
        self.parts = Ghost(self.parts@.push(dec(v as nat)));
    }

    /// Append a signed decimal numeral.
    pub fn put_int(&mut self, v: i64)
        requires
            old(self).wf(),
        ensures
            final(self).wf(),
            final(self)@ == old(self)@.push(sdec(v as int)),
    {
        proof {
            lemma_joined_push(self.parts@, sdec(v as int));
        }
        push_int(&mut self.text, v);
        self.parts = Ghost(self.parts@.push(sdec(v as int)));
    }

    /// Append a digest as 16 hexadecimal digits.
    pub fn put_hex(&mut self, v: u64)
        requires
            old(self).wf(),
        ensures
            final(self).wf(),
            final(self)@ == old(self)@.push(hex(v as nat, 16)),
    {
        proof {
            lemma_joined_push(self.parts@, hex(v as nat, 16));
        }
        push_hex16(&mut self.text, v);
        self.parts = Ghost(self.parts@.push(hex(v as nat, 16)));
    }

    /// The finished text.
    pub fn finish(self) -> (r: String)
        requires
            self.wf(),
        ensures
            r@ == joined(self@),
    {
        self.text
    }
}

} // verus!
