use vstd::prelude::*;

verus! {

/// Whether an entry whose expiry instant is `ttl` has expired at `now`; instants are
/// milliseconds since the UNIX epoch, and an entry expires once `now` is past its instant.
pub open spec fn is_expired(ttl: Option<u64>, now: u64) -> bool {
    match ttl {
        Some(t) => t < now,
        None => false,
    }
}

/// A stored value and the instant it expires at, if any.
pub struct DataItem {
    value: String,
    ttl: Option<u64>,
}

impl View for DataItem {
    type V = (Seq<char>, Option<u64>);

    closed spec fn view(&self) -> (Seq<char>, Option<u64>) {
        (self.value@, self.ttl)
    }
}

impl DataItem {
    /// An item holding `value`, expiring at `ttl` (milliseconds since the UNIX epoch).
    pub fn new(value: String, ttl: Option<u64>) -> (r: Self)
        ensures
            r@ == (value@, ttl),
    {
        DataItem { value, ttl }
    }

    /// The value, or `None` when the item has expired at `now`.
    pub fn expired_or_return(&self, now: u64) -> (r: Option<String>)
        ensures
            match r {
                Some(v) => !is_expired(self@.1, now) && v@ == self@.0,
                None => is_expired(self@.1, now),
            },
    {
        if let Some(ttl) = self.ttl {
            if ttl < now {
                return None;
            }
        }
        Some(self.value.clone())
    }
}

} // verus!
