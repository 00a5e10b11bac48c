//! Cutting the byte stream of a child process's output into the lines that the
//! splash screen and the log receive. Control bytes and bytes above 127 end a
//! line; a `:` can cut a line where uv rewrites the same progress text.

use vstd::prelude::*;
use vstd::slice::{slice_subrange, slice_to_vec};
use crate::text::{
    ends_with, find, has_suffix, lemma_first_occurrence_exists, lemma_first_occurrence_is, occurs_at, split_once, string_from,
};

verus! {

/// A byte that goes into a line: from the space (32) up to 127.
pub open spec fn kept_byte(b: u8) -> bool {
    32 <= b && b <= 127
}

/// The character of an ASCII byte.
pub open spec fn byte_char(b: u8) -> char {
    (b as int) as char
}

/// Where a `:` cuts the buffer `buf`: when the text after the buffer's first `:`
/// ends with the text before it, the first (length of that text after + 1)
/// characters go out as a line; otherwise nothing is cut (0).
#[verifier::opaque]
pub open spec fn colon_cut(buf: Seq<char>) -> int {
    match split_once(buf, seq![':']) {
        Some((l, r)) => if ends_with(r, l) {
            r.len() + 1int
        } else {
            0
        },
        None => 0,
    }
}

/// A `:` cuts at the buffer's first `:`: for a buffer `l:r` whose part `l`
/// holds no `:`, it cuts exactly when `r` ends with `l`, and then lets out the
/// first `r.len() + 1` characters of the buffer and keeps the rest, followed by
/// the new `:`; otherwise it lets nothing out and only appends the `:`.
pub proof fn lemma_colon_cuts_at_first_colon(l: Seq<char>, r: Seq<char>)
    requires
        forall|i: int| 0 <= i < l.len() ==> l[i] != ':',
    ensures
        ({
            let buf = l + seq![':'] + r;
            let repeats = r.len() >= l.len() && r.skip(r.len() - l.len()) == l;
            &&& colon_cut(buf) == (if repeats {
                r.len() + 1int
            } else {
                0
            })
            &&& split_step(buf, 58) == (if repeats {
                (Some(buf.take(r.len() + 1int)), buf.skip(r.len() + 1int).push(':'))
            } else {
                (None, buf.push(':'))
            })
        }),
{
    let buf = l + seq![':'] + r;
    let k = l.len() as int;
    assert(buf.subrange(k, k + 1) =~= seq![':']);
    assert forall|j: int| 0 <= j < k implies !occurs_at(buf, seq![':'], j) by {
        assert(buf.subrange(j, j + 1)[0] == l[j]);
    }
    lemma_first_occurrence_is(buf, seq![':'], k);
    assert(buf.take(k) =~= l);
    assert(buf.skip(k + 1) =~= r);
    assert(split_once(buf, seq![':']) == Some((l, r)));
    reveal(colon_cut);
}

/// One byte into the buffer: the line it lets out, if any, and the new buffer.
pub open spec fn split_step(buf: Seq<char>, b: u8) -> (Option<Seq<char>>, Seq<char>) {
    if !kept_byte(b) {
        (
            if buf.len() > 0 {
                Some(buf)
            } else {
                None
            },
            Seq::<char>::empty(),
        )
    } else if b == 58 {
        let cut = colon_cut(buf);
        if cut > 0 {
            (Some(buf.take(cut)), buf.skip(cut).push(':'))
        } else {
            (None, buf.push(':'))
        }
    } else {
        (None, buf.push(byte_char(b)))
    }
}

/// `bytes` one after the other into the buffer `buf`: the lines let out, in
/// order, and the buffer left.
pub open spec fn split_bytes(buf: Seq<char>, bytes: Seq<u8>) -> (Seq<Seq<char>>, Seq<char>)
    decreases bytes.len(),
{
    if bytes.len() == 0 {
        (Seq::<Seq<char>>::empty(), buf)
    } else {
        let (ls, rest) = split_bytes(buf, bytes.drop_last());
        let (out, next) = split_step(rest, bytes.last());
        (
            match out {
                Some(l) => ls.push(l),
                None => ls,
            },
            next,
        )
    }
}

/// The characters of the kept bytes of `bytes`, in order.
pub open spec fn kept_chars(bytes: Seq<u8>) -> Seq<char> {
    bytes.filter(|b: u8| kept_byte(b)).map_values(|b: u8| byte_char(b))
}

pub open spec fn string_views(v: Seq<String>) -> Seq<Seq<char>> {
    v.map_values(|s: String| s@)
}

proof fn lemma_colon_cut_bounds(buf: Seq<char>)
    ensures
        0 <= colon_cut(buf) <= buf.len(),
{
    reveal(colon_cut);
    if exists|k: int| occurs_at(buf, seq![':'], k) {
        let w = choose|k: int| occurs_at(buf, seq![':'], k);
        lemma_first_occurrence_exists(buf, seq![':'], w);
    }
}

/// The characters that one byte adds: its own when it is kept, none otherwise.
pub open spec fn kept_step(b: u8) -> Seq<char> {
    if kept_byte(b) {
        seq![byte_char(b)]
    } else {
        Seq::<char>::empty()
    }
}

proof fn lemma_step_keeps_text(buf: Seq<char>, b: u8)
    ensures
        (match split_step(buf, b).0 {
            Some(l) => l,
            None => Seq::<char>::empty(),
        }) + split_step(buf, b).1 == buf + kept_step(b),
        split_step(buf, b).0 matches Some(l) ==> l.len() > 0,
{
    lemma_colon_cut_bounds(buf);
    if !kept_byte(b) {
        assert(buf + Seq::<char>::empty() =~= buf);
        if buf.len() == 0 {
            assert(Seq::<char>::empty() + Seq::<char>::empty() =~= buf);
        } else {
            assert(buf + Seq::<char>::empty() =~= buf);
        }
    } else if b == 58 {
        assert(byte_char(b) == ':');
        let cut = colon_cut(buf);
        if cut > 0 {
            assert(buf.take(cut) + buf.skip(cut).push(':') =~= buf + seq![':']);
        } else {
            assert(Seq::<char>::empty() + buf.push(':') =~= buf + seq![':']);
        }
    } else {
        assert(Seq::<char>::empty() + buf.push(byte_char(b)) =~= buf + seq![byte_char(b)]);
    }
}

proof fn lemma_kept_chars_push(init: Seq<u8>, x: u8)
    ensures
        kept_chars(init.push(x)) == kept_chars(init) + kept_step(x),
{
    init.lemma_filter_push(x, |b: u8| kept_byte(b));
    let kept_init = init.filter(|b: u8| kept_byte(b));
    if kept_byte(x) {
        assert(init.push(x).filter(|b: u8| kept_byte(b)) == kept_init.push(x));
        assert(kept_chars(init.push(x)) =~= kept_chars(init) + kept_step(x));
    } else {
        assert(init.push(x).filter(|b: u8| kept_byte(b)) == kept_init);
        assert(kept_chars(init.push(x)) =~= kept_chars(init) + kept_step(x));
    }
}

/// Nothing is lost or reordered: the lines that a stream of bytes lets out,
/// followed by the buffer left, spell the buffer it started with followed by the
/// stream's kept bytes; and no line let out is empty.
pub proof fn lemma_split_bytes_keeps_text(buf: Seq<char>, bytes: Seq<u8>)
    ensures
        split_bytes(buf, bytes).0.flatten() + split_bytes(buf, bytes).1 == buf + kept_chars(bytes),
        forall|i: int|
            0 <= i < split_bytes(buf, bytes).0.len() ==> #[trigger] split_bytes(buf, bytes).0[i].len()
                > 0,
    decreases bytes.len(),
{
    if bytes.len() == 0 {
        assert(bytes.filter(|b: u8| kept_byte(b)) =~= Seq::<u8>::empty()) by {
            reveal(Seq::filter);
        }
        assert(kept_chars(bytes) =~= Seq::<char>::empty());
        assert(Seq::<Seq<char>>::empty().flatten() =~= Seq::<char>::empty());
        assert(buf + Seq::<char>::empty() =~= buf);
    } else {
        let init = bytes.drop_last();
        let x = bytes.last();
        lemma_split_bytes_keeps_text(buf, init);
        let (ls, rest) = split_bytes(buf, init);
        assert(bytes =~= init.push(x));
        lemma_kept_chars_push(init, x);
        lemma_step_keeps_text(rest, x);
        let (out, next) = split_step(rest, x);
        match out {
            Some(l) => {
                ls.lemma_flatten_push(l);
                let f = ls.flatten();
                assert(ls.push(l).flatten() == f + l);
                assert(l + next == rest + kept_step(x));
                assert((f + l) + next =~= f + (l + next));
                assert((f + rest) + kept_step(x) =~= f + (rest + kept_step(x)));
            },
            None => {
                assert(ls.flatten() + next =~= (ls.flatten() + rest) + kept_step(x));
            },
        }
    }
}

/// Chunk boundaries do not matter: feeding `a` and then `b` lets out the same
/// lines, and leaves the same buffer, as feeding `a + b` at once.
pub proof fn lemma_split_bytes_chunks(buf: Seq<char>, a: Seq<u8>, b: Seq<u8>)
    ensures
        ({
            let (l1, b1) = split_bytes(buf, a);
            let (l2, b2) = split_bytes(b1, b);
            split_bytes(buf, a + b) == (l1 + l2, b2)
        }),
    decreases b.len(),
{
    let (l1, b1) = split_bytes(buf, a);
    if b.len() == 0 {
        assert(a + b =~= a);
        assert(l1 + Seq::<Seq<char>>::empty() =~= l1);
    } else {
        lemma_split_bytes_chunks(buf, a, b.drop_last());
        assert((a + b).drop_last() =~= a + b.drop_last());
        assert((a + b).last() == b.last());
        let (l2, b2) = split_bytes(b1, b.drop_last());
        let (out, next) = split_step(b2, b.last());
        match out {
            Some(l) => {
                assert((l1 + l2).push(l) =~= l1 + l2.push(l));
            },
            None => {},
        }
    }
}

/// Where a `:` cuts `buf` (see `colon_cut`).
fn cut_at_colon(buf: &[char]) -> (cut: usize)
    ensures
        cut == colon_cut(buf@),
        cut <= buf@.len(),
{
    let mut colon: Vec<char> = Vec::new();
    colon.push(':');
    assert(colon@ =~= seq![':']);
    let n = buf.len();
    proof {
        lemma_colon_cut_bounds(buf@);
    }
    match find(buf, colon.as_slice()) {
        Some(i) => {
            let l = slice_subrange(buf, 0, i);
            let r = slice_subrange(buf, i + 1, n);
            assert(l@ =~= buf@.take(i as int));
            assert(r@ =~= buf@.skip(i + 1));
            assert(split_once(buf@, seq![':']) == Some((l@, r@)));
            let keep = has_suffix(r, l);
            assert(colon_cut(buf@) == if keep {
                r@.len() + 1int
            } else {
                0
            }) by {
                reveal(colon_cut);
            }
            if keep {
                r.len() + 1
            } else {
                0
            }
        },
        None => {
            assert(split_once(buf@, seq![':']) is None);
            assert(colon_cut(buf@) == 0) by {
                reveal(colon_cut);
            }
            0
        },
    }
}

/// Splits the output of a child process into lines as it arrives.
pub struct LineSplitter {
    buffer: Vec<char>,
}

impl View for LineSplitter {
    type V = Seq<char>;

    closed spec fn view(&self) -> Seq<char> {
        self.buffer@
    }
}

impl LineSplitter {
    /// A splitter with an empty buffer.
    pub fn new() -> (r: Self)
        ensures
            r@ == Seq::<char>::empty(),
    {
        LineSplitter { buffer: Vec::new() }
    }

    /// Takes one byte; gives the line it lets out (see `split_step`).
    pub fn push_byte(&mut self, b: u8) -> (line: Option<String>)
        ensures
            (match line {
                Some(l) => Some(l@),
                None => None,
            }, final(self)@) == split_step(old(self)@, b),
    {
        if b < 32 || b > 127 {
            if self.buffer.len() > 0 {
                let out = string_from(self.buffer.as_slice());
                self.buffer.clear();
                return Some(out);
            } else {
                self.buffer.clear();
                return None;
            }
        }
        if b == 58 {
            let n = self.buffer.len();
            let cut = cut_at_colon(self.buffer.as_slice());
            let mut out: Option<String> = None;
            if cut > 0 {
                let ghost whole = self.buffer@;
                out = Some(string_from(slice_subrange(self.buffer.as_slice(), 0, cut)));
                let rest = slice_to_vec(slice_subrange(self.buffer.as_slice(), cut, n));
                self.buffer = rest;
                assert(self.buffer@ =~= whole.skip(cut as int));
            }
            self.buffer.push(':');
            return out;
        }
        let c = b as char;
        assert(c == byte_char(b));
        self.buffer.push(c);
        None
    }

    /// Takes a chunk of bytes; gives the lines it lets out, in order (see
    /// `split_bytes`).
    pub fn push_chunk(&mut self, chunk: &[u8]) -> (lines: Vec<String>)
        ensures
            (string_views(lines@), final(self)@) == split_bytes(old(self)@, chunk@),
    {
        let mut lines: Vec<String> = Vec::new();
        let n = chunk.len();
        assert(chunk@.take(0) =~= Seq::<u8>::empty());
        for i in 0..n
            invariant
                n == chunk@.len(),
                (string_views(lines@), self@) == split_bytes(old(self)@, chunk@.take(i as int)),
        {
            let ghost before = string_views(lines@);
            let b = chunk[i];
            assert(chunk@.take(i + 1).drop_last() =~= chunk@.take(i as int));
            assert(chunk@.take(i + 1).last() == b);
            if let Some(l) = self.push_byte(b) {
                lines.push(l);
                assert(string_views(lines@) =~= before.push(l@));
            }
        }
        assert(chunk@.take(n as int) =~= chunk@);
        lines
    }

    /// The line left in the buffer when the stream ends, if it is not empty.
    pub fn finish(&self) -> (line: Option<String>)
        ensures
            match line {
                Some(l) => l@ == self@ && self@.len() > 0,
                None => self@.len() == 0,
            },
    {
        if self.buffer.len() > 0 {
            Some(string_from(self.buffer.as_slice()))
        } else {
            None
        }
    }
}

} // verus!
