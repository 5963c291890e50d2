//! Filename canonicalisation: maps a free-form wiki target to a relative
//! file path. The target is ASCII-lowercased, ASCII apostrophes are removed,
//! runs of ASCII whitespace become single underscores, and the result is
//! wrapped as `./{slug}.{ext}`.

use vstd::prelude::*;

use crate::bytes::is_space;
use crate::bytes::is_space_byte;

verus! {

pub const APOSTROPHE: u8 = 0x27;

pub const UNDERSCORE: u8 = 0x5f;

pub const DOT: u8 = 0x2e;

pub const SLASH: u8 = 0x2f;

/// ASCII case folding of a single byte; non-letters are unchanged.
pub open spec fn lower(b: u8) -> u8 {
    if 0x41 <= b && b <= 0x5a {
        (b + 0x20) as u8
    } else {
        b
    }
}

/// True for ASCII uppercase letters.
pub open spec fn is_upper(b: u8) -> bool {
    0x41 <= b && b <= 0x5a
}

/// `s` with every byte ASCII-lowercased.
pub open spec fn lower_seq(s: Seq<u8>) -> Seq<u8> {
    Seq::new(s.len(), |i: int| lower(s[i]))
}

/// `s` with every ASCII apostrophe removed.
pub open spec fn dequote(s: Seq<u8>) -> Seq<u8>
    decreases s.len(),
{
    if s.len() == 0 {
        Seq::empty()
    } else if s.last() == APOSTROPHE {
        dequote(s.drop_last())
    } else {
        dequote(s.drop_last()) + seq![s.last()]
    }
}

/// The slug of `s` after position `i`, given the bytes `acc` already
/// produced and whether a separator is owed before the next word byte:
/// leading and trailing whitespace is dropped and every inner run of
/// whitespace becomes one underscore.
pub open spec fn slug_from(s: Seq<u8>, i: int, acc: Seq<u8>, sep: bool) -> Seq<u8>
    decreases s.len() - i,
{
    if i < 0 || i >= s.len() {
        acc
    } else if is_space(s[i]) {
        slug_from(s, i + 1, acc, sep || acc.len() > 0)
    } else if sep {
        slug_from(s, i + 1, acc + seq![UNDERSCORE, s[i]], false)
    } else {
        slug_from(s, i + 1, acc + seq![s[i]], false)
    }
}

/// The whitespace-to-underscore slug of `s`.
pub open spec fn slug(s: Seq<u8>) -> Seq<u8> {
    slug_from(s, 0, Seq::empty(), false)
}

/// The canonical basename of a wiki target: the slug of the lowercased,
/// apostrophe-free target, followed by `.{ext}`.
pub open spec fn base_name_spec(target: Seq<u8>, ext: Seq<u8>) -> Seq<u8> {
    slug(dequote(lower_seq(target))) + seq![DOT] + ext
}

/// The canonical relative path of a wiki target: `./{slug}.{ext}`.
pub open spec fn canon_spec(target: Seq<u8>, ext: Seq<u8>) -> Seq<u8> {
    seq![DOT, SLASH] + base_name_spec(target, ext)
}

fn lower_byte(b: u8) -> (r: u8)
    ensures
        r == lower(b),
{
    if 0x41 <= b && b <= 0x5a {
        b + 0x20
    } else {
        b
    }
}

fn lower_vec(s: &[u8]) -> (r: Vec<u8>)
    ensures
        r@ == lower_seq(s@),
{
    let n = s.len();
    let mut r: Vec<u8> = Vec::new();
    let mut i: usize = 0;
    while i < n
        invariant
            0 <= i <= n == s@.len(),
            r@.len() == i,
            forall|j: int| 0 <= j < i ==> r@[j] == lower(s@[j]),
        decreases n - i,
    {
        r.push(lower_byte(s[i]));
        i = i + 1;
    }
    assert(r@ =~= lower_seq(s@));
    r
}

fn dequote_vec(s: &[u8]) -> (r: Vec<u8>)
    ensures
        r@ == dequote(s@),
{
    let n = s.len();
    let mut r: Vec<u8> = Vec::new();
    let mut i: usize = 0;
    while i < n
        invariant
            0 <= i <= n == s@.len(),
            r@ == dequote(s@.subrange(0, i as int)),
        decreases n - i,
    {
        let b = s[i];
        if b != APOSTROPHE {
            r.push(b);
        }
        i = i + 1;
        proof {
            let p = s@.subrange(0, i as int);
            assert(p.drop_last() =~= s@.subrange(0, i - 1));
            assert(p.last() == s@[i - 1]);
        }
    }
    assert(s@.subrange(0, n as int) =~= s@);
    r
}

fn slug_vec(s: &[u8]) -> (r: Vec<u8>)
    ensures
        r@ == slug(s@),
{
    let n = s.len();
    let mut r: Vec<u8> = Vec::new();
    let mut sep = false;
    let mut i: usize = 0;
    while i < n
        invariant
            0 <= i <= n == s@.len(),
            slug(s@) == slug_from(s@, i as int, r@, sep),
        decreases n - i,
    {
        let b = s[i];
        if is_space_byte(b) {
            if r.len() > 0 {
                sep = true;
            }
        } else if sep {
            let ghost before = r@;
            r.push(UNDERSCORE);
            r.push(b);
            sep = false;
            assert(r@ =~= before + seq![UNDERSCORE, s@[i as int]]);
        } else {
            let ghost before = r@;
            r.push(b);
            assert(r@ =~= before + seq![s@[i as int]]);
        }
        i = i + 1;
    }
    r
}

/// Maps a wiki target to the canonical relative path `./{slug}.{ext}`.
pub fn link_to_filename(s: &[u8], ext: &[u8]) -> (r: Vec<u8>)
    ensures
        r@ == canon_spec(s@, ext@),
{
    let mut r: Vec<u8> = Vec::new();
    r.push(DOT);
    r.push(SLASH);
    assert(r@ =~= seq![DOT, SLASH]);
    let base = base_name(s, ext);
    crate::bytes::push_bytes(&mut r, base.as_slice());
    r
}

/// Maps a wiki target to the canonical basename `{slug}.{ext}`.
pub fn base_name(s: &[u8], ext: &[u8]) -> (r: Vec<u8>)
    ensures
        r@ == base_name_spec(s@, ext@),
{
    let lowered = lower_vec(s);
    let dequoted = dequote_vec(lowered.as_slice());
    let mut r = slug_vec(dequoted.as_slice());
    r.push(DOT);
    crate::bytes::push_bytes(&mut r, ext);
    assert(r@ =~= base_name_spec(s@, ext@));
    r
}

/// The source extension the validator resolves wiki targets against.
pub fn md_ext() -> (r: Vec<u8>)
    ensures
        r@ == md_ext_spec(),
{
    let mut r: Vec<u8> = Vec::new();
    r.push(0x6d);
    r.push(0x64);
    assert(r@ =~= md_ext_spec());
    r
}

pub open spec fn md_ext_spec() -> Seq<u8> {
    seq![0x6d, 0x64]
}

/// The default output extension of the wiki-link renderer.
pub fn html_ext() -> (r: Vec<u8>)
    ensures
        r@ == html_ext_spec(),
{
    let mut r: Vec<u8> = Vec::new();
    r.push(0x68);
    r.push(0x74);
    r.push(0x6d);
    r.push(0x6c);
    assert(r@ =~= html_ext_spec());
    r
}

pub open spec fn html_ext_spec() -> Seq<u8> {
    seq![0x68, 0x74, 0x6d, 0x6c]
}

/// A byte fit for the slug part of a canonical name: not whitespace, not an
/// ASCII uppercase letter, not an apostrophe.
pub open spec fn slug_byte(b: u8) -> bool {
    !is_space(b) && !is_upper(b) && b != APOSTROPHE
}

proof fn lemma_dequote_bytes(s: Seq<u8>)
    requires
        forall|j: int| 0 <= j < s.len() ==> !is_upper(s[j]),
    ensures
        forall|j: int|
            0 <= j < dequote(s).len() ==> !is_upper(dequote(s)[j]) && dequote(s)[j] != APOSTROPHE,
    decreases s.len(),
{
    if s.len() > 0 {
        assert(forall|j: int| 0 <= j < s.drop_last().len() ==> !is_upper(s.drop_last()[j]));
        lemma_dequote_bytes(s.drop_last());
        if s.last() != APOSTROPHE {
            assert(dequote(s) == dequote(s.drop_last()) + seq![s.last()]);
            assert(!is_upper(s.last()));
            assert(forall|j: int|
                0 <= j < dequote(s).len() ==> !is_upper(dequote(s)[j]) && dequote(s)[j]
                    != APOSTROPHE);
        }
    }
}

proof fn lemma_slug_from_bytes(s: Seq<u8>, i: int, acc: Seq<u8>, sep: bool)
    requires
        forall|j: int| 0 <= j < acc.len() ==> slug_byte(acc[j]),
        forall|j: int|
            i <= j < s.len() && !is_space(s[j]) ==> !is_upper(s[j]) && s[j] != APOSTROPHE,
    ensures
        forall|j: int|
            0 <= j < slug_from(s, i, acc, sep).len() ==> slug_byte(slug_from(s, i, acc, sep)[j]),
    decreases s.len() - i,
{
    if i < 0 || i >= s.len() {
    } else if is_space(s[i]) {
        lemma_slug_from_bytes(s, i + 1, acc, sep || acc.len() > 0);
        assert(slug_from(s, i, acc, sep) == slug_from(s, i + 1, acc, sep || acc.len() > 0));
    } else if sep {
        let acc2 = acc + seq![UNDERSCORE, s[i]];
        assert(slug_byte(UNDERSCORE) && slug_byte(s[i]));
        assert(forall|j: int| 0 <= j < acc2.len() ==> slug_byte(acc2[j]));
        lemma_slug_from_bytes(s, i + 1, acc2, false);
        assert(slug_from(s, i, acc, sep) == slug_from(s, i + 1, acc2, false));
    } else {
        let acc2 = acc + seq![s[i]];
        assert(slug_byte(s[i]));
        assert(forall|j: int| 0 <= j < acc2.len() ==> slug_byte(acc2[j]));
        lemma_slug_from_bytes(s, i + 1, acc2, false);
        assert(slug_from(s, i, acc, sep) == slug_from(s, i + 1, acc2, false));
    }
}

/// Every byte of the canonical basename's slug part is lowercase-safe.
proof fn lemma_base_bytes(t: Seq<u8>)
    ensures
        forall|j: int|
            0 <= j < slug(dequote(lower_seq(t))).len() ==> slug_byte(slug(dequote(lower_seq(t)))[j]),
{
    assert(forall|j: int| 0 <= j < lower_seq(t).len() ==> !is_upper(lower_seq(t)[j]));
    lemma_dequote_bytes(lower_seq(t));
    lemma_slug_from_bytes(dequote(lower_seq(t)), 0, Seq::empty(), false);
}

/// The shape of a canonical path: it starts with `./`, ends with `.{ext}`,
/// and everything in between is free of whitespace, ASCII uppercase letters
/// and apostrophes. When the extension itself is free of them, so is the
/// whole path.
pub proof fn lemma_canonical_shape(t: Seq<u8>, e: Seq<u8>)
    ensures
        canon_spec(t, e).len() >= 3 + e.len(),
        canon_spec(t, e)[0] == DOT,
        canon_spec(t, e)[1] == SLASH,
        canon_spec(t, e).subrange(canon_spec(t, e).len() - e.len() - 1, canon_spec(t, e).len() as int)
            == seq![DOT] + e,
        forall|j: int|
            2 <= j < canon_spec(t, e).len() - e.len() - 1 ==> slug_byte(canon_spec(t, e)[j]),
        (forall|j: int| 0 <= j < e.len() ==> slug_byte(e[j])) ==> (forall|j: int|
            0 <= j < canon_spec(t, e).len() ==> !is_space(canon_spec(t, e)[j]) && !is_upper(
                canon_spec(t, e)[j],
            ) && canon_spec(t, e)[j] != APOSTROPHE),
{
    lemma_base_bytes(t);
    let c = canon_spec(t, e);
    let m = slug(dequote(lower_seq(t)));
    assert(c.subrange(c.len() - e.len() - 1, c.len() as int) =~= seq![DOT] + e);
    assert(!is_space(DOT) && !is_upper(DOT) && DOT != APOSTROPHE);
    assert(!is_space(SLASH) && !is_upper(SLASH) && SLASH != APOSTROPHE);
}

proof fn lemma_slug_from_id(s: Seq<u8>, i: int, acc: Seq<u8>)
    requires
        0 <= i <= s.len(),
        forall|j: int| i <= j < s.len() ==> !is_space(s[j]),
    ensures
        slug_from(s, i, acc, false) == acc + s.subrange(i, s.len() as int),
    decreases s.len() - i,
{
    if i >= s.len() {
        assert(acc + s.subrange(i, s.len() as int) =~= acc);
    } else {
        lemma_slug_from_id(s, i + 1, acc + seq![s[i]]);
        assert((acc + seq![s[i]]) + s.subrange(i + 1, s.len() as int) =~= acc + s.subrange(
            i,
            s.len() as int,
        ));
    }
}

proof fn lemma_dequote_id(s: Seq<u8>)
    requires
        forall|j: int| 0 <= j < s.len() ==> s[j] != APOSTROPHE,
    ensures
        dequote(s) == s,
    decreases s.len(),
{
    if s.len() > 0 {
        assert(forall|j: int| 0 <= j < s.drop_last().len() ==> s.drop_last()[j] != APOSTROPHE);
        lemma_dequote_id(s.drop_last());
        assert(s.drop_last() + seq![s.last()] =~= s);
    }
}

/// Canonicalisation is idempotent modulo the wrapping: canonicalising the
/// slug part of a canonical path gives the same canonical path.
pub proof fn lemma_canon_idempotent(t: Seq<u8>, e: Seq<u8>)
    ensures
        ({
            let c = canon_spec(t, e);
            canon_spec(c.subrange(2, c.len() - e.len() - 1), e) == c
        }),
{
    let c = canon_spec(t, e);
    let m = slug(dequote(lower_seq(t)));
    assert(c.subrange(2, c.len() - e.len() - 1) =~= m);
    lemma_base_bytes(t);
    // lowercasing leaves the slug unchanged
    assert(lower_seq(m) =~= m);
    // it has no apostrophes
    lemma_dequote_id(m);
    // and no whitespace, so the slug of it is itself
    lemma_slug_from_id(m, 0, Seq::empty());
    assert(Seq::<u8>::empty() + m.subrange(0, m.len() as int) =~= m);
    assert(canon_spec(m, e) =~= c);
}

} // verus!
