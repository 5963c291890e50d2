//! Resolution of the input directory argument. The filesystem probe that
//! canonicalises the argument stays with the caller; this module decides
//! what the probe outcome means: a resolved directory passes through, a
//! failed probe becomes the fatal message the program reports.

use vstd::prelude::*;

use crate::bytes::push_bytes;

verus! {

/// The message reported when the argument is no usable input directory:
/// `'{arg}' is not a valid input directory: {err}`.
pub open spec fn bad_dir_msg_spec(arg: Seq<u8>, err: Seq<u8>) -> Seq<u8> {
    lit_quote() + arg + lit_bad_dir() + err
}

/// Turns the outcome of canonicalising the input directory argument into
/// the directory to read, or into the fatal message the program reports:
/// the resolved path passes through unchanged, a probe error is wrapped as
/// `'{arg}' is not a valid input directory: {err}`.
pub fn find_input_dir(arg: &[u8], probe: Result<Vec<u8>, Vec<u8>>) -> (r: Result<Vec<u8>, Vec<u8>>)
    ensures
        probe matches Ok(p) ==> r matches Ok(q) && q@ == p@,
        probe matches Err(e) ==> r matches Err(m) && m@ == bad_dir_msg_spec(arg@, e@),
{
    match probe {
        Ok(p) => Ok(p),
        Err(e) => {
            let mut m = lit_quote_vec();
            push_bytes(&mut m, arg);
            let mid = lit_bad_dir_vec();
            push_bytes(&mut m, mid.as_slice());
            push_bytes(&mut m, e.as_slice());
            assert(m@ =~= bad_dir_msg_spec(arg@, e@));
            Err(m)
        },
    }
}

/// The bytes of `'`.
pub open spec fn lit_quote() -> Seq<u8> {
    seq![0x27]
}

fn lit_quote_vec() -> (r: Vec<u8>)
    ensures
        r@ == lit_quote(),
{
    let mut r: Vec<u8> = Vec::new();
    r.push(0x27);
    assert(r@ =~= lit_quote());
    r
}

/// The bytes of `' is not a valid input directory: `.
pub open spec fn lit_bad_dir() -> Seq<u8> {
    seq![0x27, 0x20, 0x69, 0x73, 0x20, 0x6e, 0x6f, 0x74, 0x20, 0x61, 0x20, 0x76, 0x61, 0x6c, 0x69, 0x64, 0x20, 0x69, 0x6e, 0x70, 0x75, 0x74, 0x20, 0x64, 0x69, 0x72, 0x65, 0x63, 0x74, 0x6f, 0x72, 0x79, 0x3a, 0x20]
}

fn lit_bad_dir_vec() -> (r: Vec<u8>)
    ensures
        r@ == lit_bad_dir(),
{
    let mut r: Vec<u8> = Vec::new();
    r.push(0x27);
    r.push(0x20);
    r.push(0x69);
    r.push(0x73);
    r.push(0x20);
    r.push(0x6e);
    r.push(0x6f);
    r.push(0x74);
    r.push(0x20);
    r.push(0x61);
    r.push(0x20);
    r.push(0x76);
    r.push(0x61);
    r.push(0x6c);
    r.push(0x69);
    r.push(0x64);
    r.push(0x20);
    r.push(0x69);
    r.push(0x6e);
    r.push(0x70);
    r.push(0x75);
    r.push(0x74);
    r.push(0x20);
    r.push(0x64);
    r.push(0x69);
    r.push(0x72);
    r.push(0x65);
    r.push(0x63);
    r.push(0x74);
    r.push(0x6f);
    r.push(0x72);
    r.push(0x79);
    r.push(0x3a);
    r.push(0x20);
    assert(r@ =~= lit_bad_dir());
    r
}

} // verus!
