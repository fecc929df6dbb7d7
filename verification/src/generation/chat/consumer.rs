//! The stream consumer: whoever watches a response as it streams in.

use vstd::prelude::*;

verus! {

/// The views of `fragments`, in order.
pub open spec fn fragment_views(fragments: Seq<String>) -> Seq<Seq<char>> {
    Seq::new(fragments.len(), |i: int| fragments[i]@)
}

/// The text that the leading `count` of `fragments` make up, joined in
/// their order.
pub open spec fn joined(fragments: Seq<Seq<char>>, count: nat) -> Seq<char>
    decreases count,
{
    if count == 0 {
        Seq::empty()
    } else {
        joined(fragments, (count - 1) as nat) + fragments[count - 1]
    }
}

/// A sink for the fragments of a response. It takes each fragment once,
/// in the order of arrival, and has no say in what the conversation does
/// next.
pub trait StreamConsumer {
    /// The fragments taken so far, in the order of their arrival.
    spec fn received(&self) -> Seq<Seq<char>>;

    /// Takes the next fragment: nothing is dropped, repeated or moved.
    fn accept(&mut self, fragment: &str)
        ensures
            final(self).received() == old(self).received().push(fragment@),
    ;
}

/// A consumer that keeps every fragment for later reading.
#[derive(Debug)]
pub struct CaptureBuffer {
    fragments: Vec<String>,
}

impl StreamConsumer for CaptureBuffer {
    closed spec fn received(&self) -> Seq<Seq<char>> {
        fragment_views(self.fragments@)
    }

    fn accept(&mut self, fragment: &str) {
        let ghost before = self.fragments@;
        self.fragments.push(String::from_str(fragment));
        assert(fragment_views(self.fragments@) =~= fragment_views(before).push(fragment@));
    }
}

impl CaptureBuffer {
    /// A buffer that has taken nothing yet.
    pub fn new() -> (r: CaptureBuffer)
        ensures
            r.received() == Seq::<Seq<char>>::empty(),
    {
        let r = CaptureBuffer { fragments: Vec::new() };
        assert(r.received() =~= Seq::<Seq<char>>::empty());
        r
    }

    /// The number of fragments taken.
    pub fn len(&self) -> (r: usize)
        ensures
            r == self.received().len(),
    {
        self.fragments.len()
    }

    /// The fragment that arrived at place `index`, if one did.
    pub fn fragment(&self, index: usize) -> (r: Option<&String>)
        ensures
            match r {
                Some(fragment) => index < self.received().len() && fragment@
                    == self.received()[index as int],
                None => index >= self.received().len(),
            },
    {
        if index < self.fragments.len() {
            Some(&self.fragments[index])
        } else {
            None
        }
    }

    /// Everything taken so far, as one text.
    pub fn text(&self) -> (r: String)
        ensures
            r@ == joined(self.received(), self.received().len()),
    {
        let ghost all = self.received();
        let mut text = String::new();
        let mut i: usize = 0;
        while i < self.fragments.len()
            invariant
                i <= self.fragments.len(),
                all == self.received(),
                text@ == joined(all, i as nat),
            decreases self.fragments.len() - i,
        {
            text.append(self.fragments[i].as_str());
            i += 1;
        }
        text
    }
}

} // verus!
