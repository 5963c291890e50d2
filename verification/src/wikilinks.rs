//! The `[[display|target]]` inline scanner. Given the remaining inline
//! slice, it succeeds exactly when the slice begins with `[[` and a closing
//! `]]` follows; the first `|` inside splits display from target, and both
//! sides are trimmed.

use vstd::prelude::*;

use crate::bytes::trim_bytes;
use crate::bytes::trim_spec;
use crate::bytes::subvec;
use crate::canon::canon_spec;
use crate::canon::link_to_filename;

verus! {

pub const LBRACKET: u8 = 0x5b;

pub const RBRACKET: u8 = 0x5d;

pub const PIPE: u8 = 0x7c;

/// An inline wiki-link node: the text shown to the reader and the raw wiki
/// target it points at. Both are trimmed of surrounding whitespace.
#[derive(Debug)]
pub struct WikiLink {
    pub disp: Vec<u8>,
    pub file: Vec<u8>,
}

impl WikiLink {
    /// Both fields carry no surrounding whitespace.
    pub open spec fn wf(self) -> bool {
        trim_spec(self.disp@) == self.disp@ && trim_spec(self.file@) == self.file@
    }

    /// The path this link renders to, with the given output extension.
    pub fn href(&self, ext: &[u8]) -> (r: Vec<u8>)
        ensures
            r@ == canon_spec(self.file@, ext@),
    {
        link_to_filename(self.file.as_slice(), ext)
    }
}

/// The least `j >= i` where `]]` starts in `s`, or `s.len()` when there is
/// none (a real match satisfies `j + 2 <= s.len()`).
pub open spec fn first_end_from(s: Seq<u8>, i: int) -> int
    decreases s.len() - i,
{
    if i < 0 || i + 2 > s.len() {
        s.len() as int
    } else if s[i] == RBRACKET && s[i + 1] == RBRACKET {
        i
    } else {
        first_end_from(s, i + 1)
    }
}

/// The least `j >= i` with `s[j] == b`, or `s.len()` when there is none.
pub open spec fn first_byte_from(s: Seq<u8>, b: u8, i: int) -> int
    decreases s.len() - i,
{
    if i < 0 || i >= s.len() {
        s.len() as int
    } else if s[i] == b {
        i
    } else {
        first_byte_from(s, b, i + 1)
    }
}

/// The index where the closing `]]` of a wiki link starts.
pub open spec fn wiki_end(s: Seq<u8>) -> int {
    first_end_from(s, 2)
}

/// True when the slice begins with `[[` and contains a closing `]]`.
pub open spec fn has_wiki_link(s: Seq<u8>) -> bool {
    s.len() >= 2 && s[0] == LBRACKET && s[1] == LBRACKET && wiki_end(s) + 2 <= s.len()
}

/// The display side of the inner text: everything before the first `|`,
/// or all of it when there is none, trimmed.
pub open spec fn wiki_disp(inner: Seq<u8>) -> Seq<u8> {
    let p = first_byte_from(inner, PIPE, 0);
    if p < inner.len() {
        trim_spec(inner.subrange(0, p))
    } else {
        trim_spec(inner)
    }
}

/// The target side of the inner text: everything after the first `|`,
/// or all of it when there is none, trimmed.
pub open spec fn wiki_target(inner: Seq<u8>) -> Seq<u8> {
    let p = first_byte_from(inner, PIPE, 0);
    if p < inner.len() {
        trim_spec(inner.subrange(p + 1, inner.len() as int))
    } else {
        trim_spec(inner)
    }
}

proof fn lemma_first_end_found(s: Seq<u8>, i: int)
    ensures
        first_end_from(s, i) < s.len() ==> first_end_from(s, i) + 2 <= s.len(),
    decreases s.len() - i,
{
    if !(i < 0 || i + 2 > s.len()) && !(s[i] == RBRACKET && s[i + 1] == RBRACKET) {
        lemma_first_end_found(s, i + 1);
    }
}

proof fn lemma_first_end_skip(s: Seq<u8>, i: int, j: int)
    requires
        0 <= i <= j,
        forall|k: int|
            i <= k < j ==> !(k + 2 <= s.len() && #[trigger] s[k] == RBRACKET && s[k + 1]
                == RBRACKET),
    ensures
        first_end_from(s, i) == first_end_from(s, j),
    decreases j - i,
{
    if i < j {
        lemma_first_end_skip(s, i + 1, j);
    }
}

proof fn lemma_first_byte_skip(s: Seq<u8>, b: u8, i: int, j: int)
    requires
        0 <= i <= j,
        forall|k: int| i <= k < j ==> !(k < s.len() && s[k] == b),
    ensures
        first_byte_from(s, b, i) == first_byte_from(s, b, j),
    decreases j - i,
{
    if i < j {
        lemma_first_byte_skip(s, b, i + 1, j);
    }
}

fn find_end(inp: &[u8]) -> (r: usize)
    requires
        inp@.len() >= 2,
    ensures
        r == wiki_end(inp@),
        2 <= r <= inp@.len(),
{
    let n = inp.len();
    let mut j: usize = 2;
    while j < n - 1
        invariant
            2 <= j,
            j <= n == inp@.len(),
            first_end_from(inp@, 2) == first_end_from(inp@, j as int),
        decreases n - j,
    {
        if inp[j] == RBRACKET && inp[j + 1] == RBRACKET {
            assert(first_end_from(inp@, j as int) == j);
            return j;
        }
        proof {
            lemma_first_end_skip(inp@, j as int, j + 1);
        }
        j = j + 1;
    }
    assert(first_end_from(inp@, j as int) == n);
    n
}

fn find_pipe(inner: &[u8]) -> (r: usize)
    ensures
        r == first_byte_from(inner@, PIPE, 0),
{
    let n = inner.len();
    let mut j: usize = 0;
    while j < n
        invariant
            0 <= j <= n == inner@.len(),
            first_byte_from(inner@, PIPE, 0) == first_byte_from(inner@, PIPE, j as int),
        decreases n - j,
    {
        if inner[j] == PIPE {
            assert(first_byte_from(inner@, PIPE, j as int) == j);
            return j;
        }
        proof {
            lemma_first_byte_skip(inner@, PIPE, j as int, j + 1);
        }
        j = j + 1;
    }
    n
}

/// Scans the remaining inline slice for a wiki link. Succeeds exactly when
/// the slice begins with `[[` and a closing `]]` follows; the consumed
/// length is then the index of the first `]]` plus two.
pub fn scan_wiki_link(inp: &[u8]) -> (r: Option<(WikiLink, usize)>)
    ensures
        r is Some <==> has_wiki_link(inp@),
        r matches Some((node, len)) ==> ({
            let inner = inp@.subrange(2, wiki_end(inp@));
            &&& len == wiki_end(inp@) + 2
            &&& node.disp@ == wiki_disp(inner)
            &&& node.file@ == wiki_target(inner)
            &&& node.wf()
        }),
{
    let n = inp.len();
    if n < 2 || inp[0] != LBRACKET || inp[1] != LBRACKET {
        return None;
    }
    let e = find_end(inp);
    if e == n {
        assert(!has_wiki_link(inp@));
        return None;
    }
    proof {
        lemma_first_end_found(inp@, 2);
    }
    assert(wiki_end(inp@) + 2 <= n);
    let inner = subvec(inp, 2, e);
    let p = find_pipe(inner.as_slice());
    let node = if p < inner.len() {
        let disp = trim_bytes(subvec(inner.as_slice(), 0, p).as_slice());
        let file = trim_bytes(subvec(inner.as_slice(), p + 1, inner.len()).as_slice());
        WikiLink { disp, file }
    } else {
        let disp = trim_bytes(inner.as_slice());
        let file = trim_bytes(inner.as_slice());
        WikiLink { disp, file }
    };
    proof {
        crate::bytes::lemma_trim_idempotent(inp@.subrange(2, wiki_end(inp@)).subrange(
            0,
            first_byte_from(inp@.subrange(2, wiki_end(inp@)), PIPE, 0),
        ));
        crate::bytes::lemma_trim_idempotent(inp@.subrange(2, wiki_end(inp@)));
        let inner_s = inp@.subrange(2, wiki_end(inp@));
        let ps = first_byte_from(inner_s, PIPE, 0);
        if ps < inner_s.len() {
            crate::bytes::lemma_trim_idempotent(inner_s.subrange(ps + 1, inner_s.len() as int));
        }
    }
    Some((node, e + 2))
}

} // verus!
