//! What the live viewers share: the keys they know, knobs that stay
//! within limits, the readout's pace and layout, and the names of
//! captured pictures.
use vstd::prelude::*;
use vstd::string::*;
use crate::bits::f32_lt;
use crate::table::join;
use crate::text::{chars_of, string_of};

verus! {

use crate::bits::{f32_ge_spec, f32_is_nan, f32_lt_spec};
use crate::table::{interleaved, texts};

/// The keys the viewers act on.
#[derive(Debug, Clone, Copy, PartialEq, Eq, Structural)]
pub enum Key {
    ArrowUp,
    ArrowDown,
    ArrowLeft,
    ArrowRight,
    A,
    C,
    D,
    E,
    F,
    G,
    O,
    P,
    Q,
    R,
    S,
    W,
    Digit1,
    Digit2,
    Digit3,
    Numpad1,
    Numpad2,
    Numpad3,
    ShiftLeft,
    ShiftRight,
    Space,
    Minus,
    Equal,
    Escape,
    /// Any other key.
    Other,
}

/// Whether a key is among some.
pub open spec fn held(keys: Seq<Key>, k: Key) -> bool {
    exists|i: int| 0 <= i < keys.len() && #[trigger] keys[i] == k
}

/// Whether a key is among some.
pub fn is_held(keys: &Vec<Key>, k: Key) -> (r: bool)
    ensures
        r == held(keys@, k),
{
    let mut i: usize = 0;
    while i < keys.len()
        invariant
            i <= keys@.len(),
            forall|j: int| 0 <= j < i ==> #[trigger] keys@[j] != k,
        decreases keys@.len() - i,
    {
        if keys[i] == k {
            return true;
        }
        i = i + 1;
    }
    false
}

// ---------------------------------------------------------------------------
// Knobs
// ---------------------------------------------------------------------------

/// A value kept within limits; a NaN passes through.
pub open spec fn clamped(v: u32, min: u32, max: u32) -> u32 {
    if f32_lt_spec(v, min) {
        min
    } else if f32_lt_spec(max, v) {
        max
    } else {
        v
    }
}

/// Keep a value within limits.
pub fn clamp(v: u32, min: u32, max: u32) -> (r: u32)
    ensures
        r == clamped(v, min, max),
{
    if f32_lt(v, min) {
        min
    } else if f32_lt(max, v) {
        max
    } else {
        v
    }
}

/// A clamped number lies within its limits, and one that already did is
/// left alone.
pub proof fn lemma_clamped_within(v: u32, min: u32, max: u32)
    requires
        !f32_is_nan(v),
        f32_ge_spec(max, min),
    ensures
        f32_ge_spec(clamped(v, min, max), min),
        f32_ge_spec(max, clamped(v, min, max)),
        f32_ge_spec(v, min) && f32_ge_spec(max, v) ==> clamped(v, min, max) == v,
{
}

// ---------------------------------------------------------------------------
// Readout
// ---------------------------------------------------------------------------

/// When the readout was last refreshed.
#[derive(Debug, Clone, Copy, PartialEq, Eq, Structural)]
pub struct Pace {
    pub last_edit: u32,
    pub frame: u32,
}

/// The frame after this one.
pub open spec fn next_frame(p: Pace) -> int {
    (p.frame + 1) % 0x1_0000_0000
}

/// Whether the readout refreshes: on an edit, and every sixth frame.
pub open spec fn refreshes(p: Pace, edit_count: u32) -> bool {
    edit_count != p.last_edit || next_frame(p) % 6 == 0
}

impl Pace {
    /// Nothing shown yet.
    pub fn new() -> (r: Pace)
        ensures
            r == (Pace { last_edit: 0, frame: 0 }),
    {
        Pace { last_edit: 0, frame: 0 }
    }

    /// Count a frame and say whether the readout refreshes.
    pub fn due(&mut self, edit_count: u32) -> (r: bool)
        ensures
            r == refreshes(*old(self), edit_count),
            final(self).frame == next_frame(*old(self)),
            final(self).last_edit == if r {
                edit_count
            } else {
                old(self).last_edit
            },
    {
        self.frame = self.frame.wrapping_add(1);
        if edit_count == self.last_edit && self.frame % 6 != 0 {
            return false;
        }
        self.last_edit = edit_count;
        true
    }
}

/// How many bytes a character takes.
pub open spec fn char_bytes(c: char) -> nat {
    if (c as u32) < 0x80 {
        1
    } else if (c as u32) < 0x800 {
        2
    } else if (c as u32) < 0x1_0000 {
        3
    } else {
        4
    }
}

/// How many bytes a text takes.
pub open spec fn bytes(s: Seq<char>) -> nat
    decreases s.len(),
{
    if s.len() == 0 {
        0
    } else {
        bytes(s.drop_last()) + char_bytes(s.last())
    }
}

/// The most bytes any of some lines takes.
pub open spec fn widest(lines: Seq<Seq<char>>) -> nat
    decreases lines.len(),
{
    if lines.len() == 0 {
        0
    } else {
        let front = widest(lines.drop_last());
        let last = bytes(lines.last());
        if last > front {
            last
        } else {
            front
        }
    }
}

/// A line filled up with spaces to a number of characters.
pub open spec fn padded(s: Seq<char>, width: nat) -> Seq<char> {
    if s.len() >= width {
        s
    } else {
        s + Seq::new((width - s.len()) as nat, |i: int| ' ')
    }
}

/// Lines filled up to one width, so a centered block aligns.
pub open spec fn block_of(lines: Seq<Seq<char>>) -> Seq<char> {
    interleaved(lines.map_values(|s: Seq<char>| padded(s, widest(lines))), "\n"@)
}

fn byte_count(s: &str) -> (r: u128)
    ensures
        r == bytes(s@),
{
    let cs = chars_of(s);
    let mut n: u128 = 0;
    let mut i: usize = 0;
    proof {
        assert(cs@.take(0) =~= Seq::<char>::empty());
    }
    while i < cs.len()
        invariant
            i <= cs@.len(),
            cs@ == s@,
            n <= 4 * i,
            n == bytes(cs@.take(i as int)),
        decreases cs@.len() - i,
    {
        let c: u32 = cs[i] as u32;
        proof {
            assert(cs@.take(i + 1).drop_last() =~= cs@.take(i as int));
        }
        n = n + (if c < 0x80 {
            1
        } else if c < 0x800 {
            2
        } else if c < 0x1_0000 {
            3
        } else {
            4
        });
        i = i + 1;
    }
    proof {
        assert(cs@.take(i as int) =~= cs@);
    }
    n
}

fn pad(s: &str, width: u128) -> (r: String)
    ensures
        r@ == padded(s@, width as nat),
{
    let n: u128 = chars_of(s).len() as u128;
    let mut out = s.to_owned();
    let mut k: u128 = n;
    proof {
        assert(out@ =~= s@ + Seq::new(0, |i: int| ' '));
    }
    while k < width
        invariant
            n == s@.len(),
            n <= k,
            k <= width || k == n,
            out@ == s@ + Seq::new((k - n) as nat, |i: int| ' '),
        decreases width - k,
    {
        out.append(" ");
        k = k + 1;
        proof {
            reveal_strlit(" ");
            assert(out@ =~= s@ + Seq::new((k - n) as nat, |i: int| ' '));
        }
    }
    proof {
        assert(out@ =~= padded(s@, width as nat));
    }
    out
}

/// Lay out a readout.
pub fn block(lines: &Vec<String>) -> (r: String)
    ensures
        r@ == block_of(texts(lines@)),
{
    let ghost all = texts(lines@);
    let mut width: u128 = 0;
    let mut i: usize = 0;
    proof {
        assert(all.take(0) =~= Seq::<Seq<char>>::empty());
    }
    while i < lines.len()
        invariant
            i <= lines@.len(),
            all == texts(lines@),
            width == widest(all.take(i as int)),
        decreases lines@.len() - i,
    {
        proof {
            assert(all.take(i + 1).drop_last() =~= all.take(i as int));
            assert(all.take(i + 1).last() == lines@[i as int]@);
        }
        let n: u128 = byte_count(lines[i].as_str());
        if n > width {
            width = n;
        }
        i = i + 1;
    }
    proof {
        assert(all.take(i as int) =~= all);
    }
    let ghost filled = all.map_values(|s: Seq<char>| padded(s, widest(all)));
    let mut out: Vec<String> = Vec::with_capacity(lines.len());
    let mut k: usize = 0;
    while k < lines.len()
        invariant
            k <= lines@.len(),
            all == texts(lines@),
            width == widest(all),
            filled == all.map_values(|s: Seq<char>| padded(s, widest(all))),
            out@.len() == k,
            forall|j: int| 0 <= j < k ==> (#[trigger] out@[j])@ == filled[j],
        decreases lines@.len() - k,
    {
        out.push(pad(lines[k].as_str(), width));
        k = k + 1;
    }
    proof {
        assert(texts(out@) =~= filled);
    }
    join(&out, "\n")
}

// ---------------------------------------------------------------------------
// Captures
// ---------------------------------------------------------------------------

/// Position of the last dot, or -1.
pub open spec fn last_dot(s: Seq<char>) -> int
    decreases s.len(),
{
    if s.len() == 0 {
        -1
    } else if s.last() == '.' {
        s.len() - 1
    } else {
        last_dot(s.drop_last())
    }
}

/// A path with a tag before its extension, or at its end.
pub open spec fn tagged(path: Seq<char>, tag: Seq<char>) -> Seq<char> {
    let d = last_dot(path);
    if d < 0 {
        path + "-"@ + tag
    } else {
        path.take(d) + "-"@ + tag + path.skip(d)
    }
}

/// Tag a capture's path: `foo.png` becomes `foo-<tag>.png`.
pub fn shot_variant(path: &str, tag: &str) -> (r: String)
    ensures
        r@ == tagged(path@, tag@),
{
    let cs = chars_of(path);
    let mut n: usize = cs.len();
    proof {
        assert(cs@.take(n as int) =~= cs@);
    }
    while n > 0 && cs[n - 1] != '.'
        invariant
            n <= cs@.len(),
            cs@ == path@,
            last_dot(path@) == last_dot(cs@.take(n as int)),
        decreases n,
    {
        proof {
            assert(cs@.take(n as int).drop_last() =~= cs@.take(n - 1));
        }
        n = n - 1;
    }
    if n == 0 {
        proof {
            assert(cs@.take(0) =~= Seq::<char>::empty());
        }
        let mut out = path.to_owned();
        out.append("-");
        out.append(tag);
        out
    } else {
        proof {
            assert(cs@.take(n as int).last() == '.');
            assert(last_dot(path@) == n - 1);
        }
        let mut out = string_of(cs.as_slice(), 0, n - 1);
        out.append("-");
        out.append(tag);
        let rest = string_of(cs.as_slice(), n - 1, cs.len());
        out.append(rest.as_str());
        proof {
            assert(cs@.subrange(0, n - 1) =~= path@.take(n - 1));
            assert(cs@.subrange(n - 1, cs@.len() as int) =~= path@.skip(n - 1));
        }
        out
    }
}

proof fn lemma_bytes_cover(s: Seq<char>)
    ensures
        bytes(s) >= s.len(),
    decreases s.len(),
{
    if s.len() > 0 {
        lemma_bytes_cover(s.drop_last());
    }
}

proof fn lemma_widest_covers(lines: Seq<Seq<char>>, i: int)
    requires
        0 <= i < lines.len(),
    ensures
        bytes(lines[i]) <= widest(lines),
    decreases lines.len(),
{
    if i < lines.len() - 1 {
        lemma_widest_covers(lines.drop_last(), i);
    }
}

/// The lines of a block align: every one is filled up to the same number
/// of characters, and keeps its text in front.
pub proof fn lemma_block_lines_align(lines: Seq<Seq<char>>, i: int)
    requires
        0 <= i < lines.len(),
    ensures
        padded(lines[i], widest(lines)).len() == widest(lines),
        padded(lines[i], widest(lines)).take(lines[i].len() as int) == lines[i],
{
    lemma_widest_covers(lines, i);
    lemma_bytes_cover(lines[i]);
    assert(padded(lines[i], widest(lines)).take(lines[i].len() as int) =~= lines[i]);
}

} // verus!
