use vstd::prelude::*;

verus! {

/// For a byte string, the deep view is the plain view.
pub proof fn lema_vista_bytes(v: &Vec<u8>)
    ensures
        v.deep_view() == v@,
{
    assert(v.deep_view() =~= v@);
}

/// For a list of ids, the deep view is the plain view.
pub proof fn lema_vista_ids(v: &Vec<u32>)
    ensures
        v.deep_view() == v@,
{
    assert(v.deep_view() =~= v@);
}

/// Byte-wise equality of two byte strings.
pub fn bytes_iguais(a: &Vec<u8>, b: &Vec<u8>) -> (r: bool)
    ensures
        r == (a@ == b@),
{
    if a.len() != b.len() {
        return false;
    }
    for i in 0..a.len()
        invariant
            a.len() == b.len(),
            forall|j: int| 0 <= j < i ==> a@[j] == b@[j],
    {
        if a[i] != b[i] {
            return false;
        }
    }
    assert(a@ =~= b@);
    true
}

/// An exact copy of a byte string.
pub fn copia_bytes(a: &Vec<u8>) -> (r: Vec<u8>)
    ensures
        r@ == a@,
{
    let mut r: Vec<u8> = Vec::new();
    for i in 0..a.len()
        invariant
            r@ == a@.subrange(0, i as int),
    {
        r.push(a[i]);
    }
    assert(r@ =~= a@);
    r
}

} // verus!
