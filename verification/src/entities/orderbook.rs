//! The book of one trading pair.

use vstd::prelude::*;

verus! {

/// The book of one trading pair, named by its symbol.
#[derive(Debug)]
pub struct OrderBook {
    pub pair: String,
}

impl Clone for OrderBook {
    fn clone(&self) -> (r: OrderBook)
        ensures
            r == *self,
    {
        OrderBook { pair: self.pair.clone() }
    }
}

impl Default for OrderBook {
    /// The book of the empty symbol.
    fn default() -> (r: OrderBook)
        ensures
            r.pair@ == Seq::<char>::empty(),
    {
        OrderBook { pair: String::new() }
    }
}

} // verus!
