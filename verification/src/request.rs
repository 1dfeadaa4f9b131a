//! A pending write against the store: a key path and the value to put there.

use vstd::prelude::*;

use crate::value::Value;

verus! {

/// A pending write. Requests compose: prefixing a channel-level request with
/// a bank-level one builds the full nested path.
#[derive(Debug, Clone, PartialEq)]
pub struct Request {
    pub key: String,
    pub val: Value,
}

impl Request {
    /// Compose two requests: the result's path is this request's path, a
    /// `/`, then the other's path, and the value is the other's value.
    /// Composition is order-sensitive: outer prefix first, inner suffix last.
    pub fn add(self, other: Request) -> (r: Request)
        ensures
            r.key@ == self.key@ + seq!['/'] + other.key@,
            r.val == other.val,
    {
        let ghost old_key = self.key@;
        let mut key = self.key;
        key.append("/");
        key.append(other.key.as_str());
        proof {
            reveal_strlit("/");
            assert(key@ =~= old_key + seq!['/'] + other.key@);
        }
        Request { key, val: other.val }
    }
}

} // verus!
