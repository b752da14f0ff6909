//! A value set between a pair of enclosing marks, such as backticks.
use crate::text::string_of;
use vstd::prelude::*;
use vstd::string::*;

verus! {

/// A value together with the mark written on both of its sides.
pub struct Enclosure {
    enclosure: &'static str,
    value: String,
}

impl Enclosure {
    /// The text this enclosure renders to.
    pub closed spec fn text(&self) -> Seq<char> {
        self.enclosure@ + self.value@ + self.enclosure@
    }

    /// `value` between backticks.
    pub fn tick(value: &str) -> (r: Self)
        ensures
            r.text() == seq!['`'] + value@ + seq!['`'],
    {
        proof {
            reveal_strlit("`");
        }
        Self { enclosure: "`", value: string_of(value) }
    }

    /// The rendered text: the mark, the value, the mark.
    pub fn to_string(&self) -> (r: String)
        ensures
            r@ == self.text(),
    {
        let mut r = string_of(self.enclosure);
        r.append(self.value.as_str());
        r.append(self.enclosure);
        r
    }
}

} // verus!
