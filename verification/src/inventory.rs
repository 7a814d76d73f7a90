//! A Bricklink inventory: the same wire records under the container's
//! older name, kept for callers that still use it.
use vstd::prelude::*;

use crate::wanted::{SerdeItem, SerdeItemView};

verus! {

/// The untyped container of wire records.
#[derive(Debug, PartialEq)]
pub struct SerdeInventory {
    pub items: Vec<SerdeItem>,
}

impl View for SerdeInventory {
    type V = Seq<SerdeItemView>;

    open spec fn view(&self) -> Seq<SerdeItemView> {
        self.items@.map_values(|i: SerdeItem| i@)
    }
}

impl SerdeInventory {
    /// Repairs the output of a list writer that emits one redundant item
    /// tag pair just inside the container: six characters after the
    /// container's opening tag and seven just before its closing tag are
    /// cut out.  The input must be at least as long as the shortest such
    /// defective document.
    pub fn repair_serialized_string(serde_string: String) -> (r: String)
        requires
            serde_string@.len() >= 36,
        ensures
            r@ == serde_string@.subrange(0, 11) + serde_string@.subrange(
                17,
                serde_string@.len() - 19,
            ) + serde_string@.subrange(serde_string@.len() - 12, serde_string@.len() as int),
    {
        let s = serde_string.as_str();
        let len = s.unicode_len();
        let part1 = s.substring_char(0, 11);
        let part2 = s.substring_char(17, len - 19);
        let part3 = s.substring_char(len - 12, len);
        let mut out = String::new();
        out.append(part1);
        out.append(part2);
        out.append(part3);
        proof {
            assert(out@ =~= serde_string@.subrange(0, 11) + serde_string@.subrange(
                17,
                serde_string@.len() - 19,
            ) + serde_string@.subrange(serde_string@.len() - 12, serde_string@.len() as int));
        }
        out
    }
}

} // verus!
