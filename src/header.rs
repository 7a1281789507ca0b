use vstd::prelude::*;

verus! {

/// The mathematical content of a [`Header`].
pub ghost struct HeaderView {
    pub parent_hash: Seq<char>,
    pub hash: Seq<char>,
    pub number: u64,
}

/// One entry of a header chain.
#[derive(Debug)]
pub struct Header {
    pub parent_hash: String,
    pub hash: String,
    pub number: u64,
}

impl View for Header {
    type V = HeaderView;

    open spec fn view(&self) -> HeaderView {
        HeaderView { parent_hash: self.parent_hash@, hash: self.hash@, number: self.number }
    }
}

impl Clone for Header {
    fn clone(&self) -> (r: Self)
        ensures
            r == *self,
    {
        Header {
            parent_hash: self.parent_hash.clone(),
            hash: self.hash.clone(),
            number: self.number,
        }
    }
}

} // verus!
