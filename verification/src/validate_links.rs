//! The cross-document link validator. It walks the references collected
//! from a parsed document in order and reports, purely advisorily, every
//! wiki link whose canonicalised target has no source file in the file set,
//! and every conventional link to a same-directory resource that the file
//! set lacks.

use vstd::prelude::*;

use crate::bytes::bytes_eq;
use crate::bytes::contains_byte;
use crate::bytes::copy_bytes;
use crate::bytes::find_contains_byte;
use crate::bytes::push_bytes;
use crate::canon::SLASH;
use crate::canon::base_name;
use crate::canon::base_name_spec;
use crate::canon::md_ext;
use crate::canon::md_ext_spec;
use crate::wikilinks::PIPE;

verus! {

/// The basenames of the files a link may resolve to, as listed once from
/// the validation directory when the pipeline is built. Never mutated.
pub struct FileSet {
    pub names: Vec<Vec<u8>>,
}

impl FileSet {
    /// Membership of a basename in the set.
    pub open spec fn contains_name(self, n: Seq<u8>) -> bool {
        exists|i: int| 0 <= i < self.names@.len() && self.names@[i]@ == n
    }

    pub fn contains(&self, n: &[u8]) -> (r: bool)
        ensures
            r == self.contains_name(n@),
    {
        let count = self.names.len();
        let mut i: usize = 0;
        while i < count
            invariant
                0 <= i <= count == self.names@.len(),
                forall|j: int| 0 <= j < i ==> self.names@[j]@ != n@,
            decreases count - i,
        {
            if bytes_eq(self.names[i].as_slice(), n) {
                return true;
            }
            i = i + 1;
        }
        false
    }
}

/// One reference found in a parsed document: either a wiki link with its
/// display text and raw target, or a conventional link with its URL.
pub enum LinkRef {
    Wiki { disp: Vec<u8>, target: Vec<u8> },
    Local { url: Vec<u8> },
}

/// The mathematical value of a [`LinkRef`].
pub enum LinkRefView {
    Wiki { disp: Seq<u8>, target: Seq<u8> },
    Local { url: Seq<u8> },
}

impl View for LinkRef {
    type V = LinkRefView;

    open spec fn view(&self) -> LinkRefView {
        match self {
            LinkRef::Wiki { disp, target } => LinkRefView::Wiki {
                disp: disp@,
                target: target@,
            },
            LinkRef::Local { url } => LinkRefView::Local { url: url@ },
        }
    }
}

/// One advisory diagnostic: a wiki link whose canonicalised basename is not
/// in the file set, or a same-directory conventional link that is not.
pub enum Diagnostic {
    MissingWiki { disp: Vec<u8>, target: Vec<u8>, resolved: Vec<u8> },
    MissingLocal { url: Vec<u8> },
}

/// The mathematical value of a [`Diagnostic`].
pub enum DiagnosticView {
    MissingWiki { disp: Seq<u8>, target: Seq<u8>, resolved: Seq<u8> },
    MissingLocal { url: Seq<u8> },
}

impl View for Diagnostic {
    type V = DiagnosticView;

    open spec fn view(&self) -> DiagnosticView {
        match self {
            Diagnostic::MissingWiki { disp, target, resolved } => DiagnosticView::MissingWiki {
                disp: disp@,
                target: target@,
                resolved: resolved@,
            },
            Diagnostic::MissingLocal { url } => DiagnosticView::MissingLocal { url: url@ },
        }
    }
}

/// The views of a sequence of references.
pub open spec fn ref_views(rs: Seq<LinkRef>) -> Seq<LinkRefView> {
    rs.map_values(|r: LinkRef| r@)
}

/// The views of a sequence of diagnostics.
pub open spec fn diag_views(ds: Seq<Diagnostic>) -> Seq<DiagnosticView> {
    ds.map_values(|d: Diagnostic| d@)
}

/// Whether a reference resolves against the file set: a wiki link resolves
/// when its canonicalised basename with the source extension is listed; a
/// conventional link resolves when its URL names a subdirectory (contains a
/// slash, which the validator does not follow) or is listed.
pub open spec fn resolves(r: LinkRefView, files: FileSet) -> bool {
    match r {
        LinkRefView::Wiki { disp, target } => files.contains_name(
            base_name_spec(target, md_ext_spec()),
        ),
        LinkRefView::Local { url } => contains_byte(url, SLASH) || files.contains_name(url),
    }
}

/// The diagnostic a failing reference produces.
pub open spec fn diag_of(r: LinkRefView) -> DiagnosticView {
    match r {
        LinkRefView::Wiki { disp, target } => DiagnosticView::MissingWiki {
            disp,
            target,
            resolved: base_name_spec(target, md_ext_spec()),
        },
        LinkRefView::Local { url } => DiagnosticView::MissingLocal { url },
    }
}

/// The diagnostics of a sequence of references, in document order: one for
/// each reference that does not resolve.
pub open spec fn diags_spec(rs: Seq<LinkRefView>, files: FileSet) -> Seq<DiagnosticView>
    decreases rs.len(),
{
    if rs.len() == 0 {
        Seq::empty()
    } else {
        diags_spec(rs.drop_last(), files) + (if resolves(rs.last(), files) {
            Seq::empty()
        } else {
            seq![diag_of(rs.last())]
        })
    }
}

/// The validator is silent exactly when every wiki target's canonicalised
/// basename and every same-directory conventional link is in the file set.
pub proof fn lemma_validator_silent(rs: Seq<LinkRefView>, files: FileSet)
    ensures
        diags_spec(rs, files).len() == 0 <==> (forall|i: int|
            0 <= i < rs.len() ==> resolves(rs[i], files)),
    decreases rs.len(),
{
    if rs.len() > 0 {
        lemma_validator_silent(rs.drop_last(), files);
        if diags_spec(rs, files).len() == 0 {
            assert(resolves(rs.last(), files));
            assert(forall|i: int|
                0 <= i < rs.drop_last().len() ==> resolves(#[trigger] rs.drop_last()[i], files));
            assert(forall|i: int|
                0 <= i < rs.len() - 1 ==> rs.drop_last()[i] == #[trigger] rs[i]);
            assert(forall|i: int| 0 <= i < rs.len() ==> resolves(rs[i], files));
        } else {
            if forall|i: int| 0 <= i < rs.len() ==> resolves(rs[i], files) {
                assert(forall|i: int|
                    0 <= i < rs.drop_last().len() ==> resolves(rs.drop_last()[i], files));
                assert(diags_spec(rs, files).len() == 0);
            }
        }
    }
}

/// Walks the collected references in document order and returns one
/// diagnostic for every reference that does not resolve against the file
/// set. The document itself is never changed by validation.
pub fn validate(refs: &Vec<LinkRef>, files: &FileSet) -> (diags: Vec<Diagnostic>)
    ensures
        diag_views(diags@) == diags_spec(ref_views(refs@), *files),
        diags@.len() == 0 <==> (forall|i: int|
            0 <= i < refs@.len() ==> resolves(#[trigger] refs@[i]@, *files)),
{
    let md = md_ext();
    let n = refs.len();
    let mut diags: Vec<Diagnostic> = Vec::new();
    let mut i: usize = 0;
    while i < n
        invariant
            0 <= i <= n == refs@.len(),
            md@ == md_ext_spec(),
            diag_views(diags@) == diags_spec(ref_views(refs@).subrange(0, i as int), *files),
        decreases n - i,
    {
        match &refs[i] {
            LinkRef::Wiki { disp, target } => {
                let resolved = base_name(target.as_slice(), md.as_slice());
                if !files.contains(resolved.as_slice()) {
                    let d = Diagnostic::MissingWiki {
                        disp: copy_bytes(disp.as_slice()),
                        target: copy_bytes(target.as_slice()),
                        resolved,
                    };
                    assert(d@ == diag_of(refs@[i as int]@));
                    diags.push(d);
                }
            },
            LinkRef::Local { url } => {
                if !find_contains_byte(url.as_slice(), SLASH) && !files.contains(url.as_slice()) {
                    let d = Diagnostic::MissingLocal { url: copy_bytes(url.as_slice()) };
                    assert(d@ == diag_of(refs@[i as int]@));
                    diags.push(d);
                }
            },
        }
        i = i + 1;
        proof {
            let all = ref_views(refs@);
            let p = all.subrange(0, i as int);
            assert(p.drop_last() =~= all.subrange(0, i - 1));
            assert(p.last() == refs@[i - 1]@);
            assert(diag_views(diags@) =~= diags_spec(p, *files));
        }
    }
    proof {
        assert(ref_views(refs@).subrange(0, n as int) =~= ref_views(refs@));
        lemma_validator_silent(ref_views(refs@), *files);
        assert(diags@.len() == diag_views(diags@).len());
        assert(forall|i: int| 0 <= i < refs@.len() ==> ref_views(refs@)[i] == #[trigger] refs@[i]@);
    }
    diags
}

/// The message of a diagnostic, exactly as the advisory output prints it.
pub open spec fn msg_spec(d: DiagnosticView) -> Seq<u8> {
    match d {
        DiagnosticView::MissingWiki { disp, target, resolved } => lit_wiki_open() + disp
            + seq![PIPE] + target + lit_wiki_mid() + resolved + lit_wiki_close(),
        DiagnosticView::MissingLocal { url } => lit_local_open() + url + lit_local_close(),
    }
}

/// Formats a diagnostic as its message line.
pub fn render_diag(d: &Diagnostic) -> (r: Vec<u8>)
    ensures
        r@ == msg_spec(d@),
{
    match d {
        Diagnostic::MissingWiki { disp, target, resolved } => {
            let mut r = lit_wiki_open_vec();
            push_bytes(&mut r, disp.as_slice());
            r.push(PIPE);
            push_bytes(&mut r, target.as_slice());
            let mid = lit_wiki_mid_vec();
            push_bytes(&mut r, mid.as_slice());
            push_bytes(&mut r, resolved.as_slice());
            let close = lit_wiki_close_vec();
            push_bytes(&mut r, close.as_slice());
            assert(r@ =~= msg_spec(d@));
            r
        },
        Diagnostic::MissingLocal { url } => {
            let mut r = lit_local_open_vec();
            push_bytes(&mut r, url.as_slice());
            let close = lit_local_close_vec();
            push_bytes(&mut r, close.as_slice());
            assert(r@ =~= msg_spec(d@));
            r
        },
    }
}

/// The bytes of `'[[`.
pub open spec fn lit_wiki_open() -> Seq<u8> {
    seq![0x27, 0x5b, 0x5b]
}

fn lit_wiki_open_vec() -> (r: Vec<u8>)
    ensures
        r@ == lit_wiki_open(),
{
    let mut r: Vec<u8> = Vec::new();
    r.push(0x27);
    r.push(0x5b);
    r.push(0x5b);
    assert(r@ =~= lit_wiki_open());
    r
}

/// The bytes of `]]' is not a valid wiki link: '`.
pub open spec fn lit_wiki_mid() -> Seq<u8> {
    seq![0x5d, 0x5d, 0x27, 0x20, 0x69, 0x73, 0x20, 0x6e, 0x6f, 0x74, 0x20, 0x61, 0x20, 0x76, 0x61, 0x6c, 0x69, 0x64, 0x20, 0x77, 0x69, 0x6b, 0x69, 0x20, 0x6c, 0x69, 0x6e, 0x6b, 0x3a, 0x20, 0x27]
}

fn lit_wiki_mid_vec() -> (r: Vec<u8>)
    ensures
        r@ == lit_wiki_mid(),
{
    let mut r: Vec<u8> = Vec::new();
    r.push(0x5d);
    r.push(0x5d);
    r.push(0x27);
    r.push(0x20);
    r.push(0x69);
    r.push(0x73);
    r.push(0x20);
    r.push(0x6e);
    r.push(0x6f);
    r.push(0x74);
    r.push(0x20);
    r.push(0x61);
    r.push(0x20);
    r.push(0x76);
    r.push(0x61);
    r.push(0x6c);
    r.push(0x69);
    r.push(0x64);
    r.push(0x20);
    r.push(0x77);
    r.push(0x69);
    r.push(0x6b);
    r.push(0x69);
    r.push(0x20);
    r.push(0x6c);
    r.push(0x69);
    r.push(0x6e);
    r.push(0x6b);
    r.push(0x3a);
    r.push(0x20);
    r.push(0x27);
    assert(r@ =~= lit_wiki_mid());
    r
}

/// The bytes of `' cannot be resolved`.
pub open spec fn lit_wiki_close() -> Seq<u8> {
    seq![0x27, 0x20, 0x63, 0x61, 0x6e, 0x6e, 0x6f, 0x74, 0x20, 0x62, 0x65, 0x20, 0x72, 0x65, 0x73, 0x6f, 0x6c, 0x76, 0x65, 0x64]
}

fn lit_wiki_close_vec() -> (r: Vec<u8>)
    ensures
        r@ == lit_wiki_close(),
{
    let mut r: Vec<u8> = Vec::new();
    r.push(0x27);
    r.push(0x20);
    r.push(0x63);
    r.push(0x61);
    r.push(0x6e);
    r.push(0x6e);
    r.push(0x6f);
    r.push(0x74);
    r.push(0x20);
    r.push(0x62);
    r.push(0x65);
    r.push(0x20);
    r.push(0x72);
    r.push(0x65);
    r.push(0x73);
    r.push(0x6f);
    r.push(0x6c);
    r.push(0x76);
    r.push(0x65);
    r.push(0x64);
    assert(r@ =~= lit_wiki_close());
    r
}

/// The bytes of `linked resource '`.
pub open spec fn lit_local_open() -> Seq<u8> {
    seq![0x6c, 0x69, 0x6e, 0x6b, 0x65, 0x64, 0x20, 0x72, 0x65, 0x73, 0x6f, 0x75, 0x72, 0x63, 0x65, 0x20, 0x27]
}

fn lit_local_open_vec() -> (r: Vec<u8>)
    ensures
        r@ == lit_local_open(),
{
    let mut r: Vec<u8> = Vec::new();
    r.push(0x6c);
    r.push(0x69);
    r.push(0x6e);
    r.push(0x6b);
    r.push(0x65);
    r.push(0x64);
    r.push(0x20);
    r.push(0x72);
    r.push(0x65);
    r.push(0x73);
    r.push(0x6f);
    r.push(0x75);
    r.push(0x72);
    r.push(0x63);
    r.push(0x65);
    r.push(0x20);
    r.push(0x27);
    assert(r@ =~= lit_local_open());
    r
}

/// The bytes of `' does not exist`.
pub open spec fn lit_local_close() -> Seq<u8> {
    seq![0x27, 0x20, 0x64, 0x6f, 0x65, 0x73, 0x20, 0x6e, 0x6f, 0x74, 0x20, 0x65, 0x78, 0x69, 0x73, 0x74]
}

fn lit_local_close_vec() -> (r: Vec<u8>)
    ensures
        r@ == lit_local_close(),
{
    let mut r: Vec<u8> = Vec::new();
    r.push(0x27);
    r.push(0x20);
    r.push(0x64);
    r.push(0x6f);
    r.push(0x65);
    r.push(0x73);
    r.push(0x20);
    r.push(0x6e);
    r.push(0x6f);
    r.push(0x74);
    r.push(0x20);
    r.push(0x65);
    r.push(0x78);
    r.push(0x69);
    r.push(0x73);
    r.push(0x74);
    assert(r@ =~= lit_local_close());
    r
}


} // verus!
