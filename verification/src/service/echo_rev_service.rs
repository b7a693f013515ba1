use vstd::prelude::*;
use crate::text::piece;
use vstd::string::*;

verus! {

/// A service that answers each request with its characters in reverse order.
pub struct EchoRev;

impl EchoRev {
    /// The reply to `req`: its characters, last first.
    pub fn call(&self, req: String) -> (rev: String)
        ensures
            rev@ == req@.reverse(),
    {
        let s = req.as_str();
        let n = s.unicode_len();
        let mut rev = String::new();
        let mut i: usize = n;
        while i > 0
            invariant
                n == s@.len(),
                s@ == req@,
                i <= n,
                rev@ == s@.skip(i as int).reverse(),
            decreases i,
        {
            let one = piece(s, i - 1, i);
            proof {
                assert(s@.skip(i - 1) =~= seq![s@[i - 1]] + s@.skip(i as int));
                assert(s@.skip(i - 1).reverse() =~= s@.skip(i as int).reverse() + one@);
            }
            rev.append(one.as_str());
            i = i - 1;
        }
        proof {
            assert(s@.skip(0) =~= s@);
        }
        rev
    }
}

} // verus!
