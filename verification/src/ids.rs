use vstd::prelude::*;

verus! {

/// The opaque identity of an object (a blob or a commit) in the enclosing
/// repository, held as its raw bytes.
///
/// The walk never looks inside an identity; it only compares identities for
/// equality, so the byte sequence is the whole model.
#[derive(Debug, Clone, PartialEq, Eq)]
pub struct ObjectId {
    pub bytes: Vec<u8>,
}

impl View for ObjectId {
    type V = Seq<u8>;

    open spec fn view(&self) -> Seq<u8> {
        self.bytes@
    }
}

impl ObjectId {
    /// Whether two identities denote the same object.
    pub fn same_as(&self, other: &ObjectId) -> (r: bool)
        ensures
            r == (self@ == other@),
    {
        let r = self.bytes == other.bytes;
        proof {
            if self.bytes@.len() == other.bytes@.len() && (forall|i: int|
                0 <= i < self.bytes@.len() ==> self.bytes@[i] == other.bytes@[i]) {
                assert(self.bytes@ =~= other.bytes@);
            }
        }
        r
    }

    /// An identity with the same bytes.
    pub fn duplicate(&self) -> (r: ObjectId)
        ensures
            r@ == self@,
    {
        ObjectId { bytes: copy_bytes(&self.bytes) }
    }
}

/// A fresh vector holding the same bytes.
pub fn copy_bytes(v: &Vec<u8>) -> (r: Vec<u8>)
    ensures
        r@ == v@,
{
    let mut r: Vec<u8> = Vec::new();
    let mut i: usize = 0;
    while i < v.len()
        invariant
            i <= v.len(),
            r@ == v@.subrange(0, i as int),
        decreases v.len() - i,
    {
        r.push(v[i]);
        proof {
            assert(r@ =~= v@.subrange(0, i + 1 as int));
        }
        i = i + 1;
    }
    proof {
        assert(r@ =~= v@);
    }
    r
}

/// Whether two byte strings are equal.
pub fn bytes_eq(a: &Vec<u8>, b: &Vec<u8>) -> (r: bool)
    ensures
        r == (a@ == b@),
{
    let r = a == b;
    proof {
        if a@.len() == b@.len() && (forall|i: int| 0 <= i < a@.len() ==> a@[i] == b@[i]) {
            assert(a@ =~= b@);
        }
    }
    r
}

} // verus!
