use vstd::prelude::*;

verus! {

/// An immutable commit identifier: the bytes of a content hash.
pub struct Vertex {
    pub hash: Vec<u8>,
}

impl View for Vertex {
    type V = Seq<u8>;

    open spec fn view(&self) -> Seq<u8> {
        self.hash@
    }
}

impl Vertex {
    pub fn new(hash: Vec<u8>) -> (r: Vertex)
        ensures
            r@ == hash@,
    {
        Vertex { hash }
    }

    /// An independent copy of the identifier.
    pub fn duplicate(&self) -> (r: Vertex)
        ensures
            r@ == self@,
    {
        Vertex { hash: self.hash.clone() }
    }

    /// Equality by value.
    pub fn same_as(&self, other: &Vertex) -> (r: bool)
        ensures
            r == (self@ == other@),
    {
        if self.hash.len() != other.hash.len() {
            return false;
        }
        let mut i: usize = 0;
        while i < self.hash.len()
            invariant
                self.hash.len() == other.hash.len(),
                0 <= i <= self.hash.len(),
                forall|k: int| 0 <= k < i ==> self.hash@[k] == other.hash@[k],
            decreases self.hash.len() - i,
        {
            if self.hash[i] != other.hash[i] {
                return false;
            }
            i = i + 1;
        }
        assert(self.hash@ =~= other.hash@);
        true
    }
}

} // verus!
