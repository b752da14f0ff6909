//! The indentation used when formatting recipe files: a run of one
//! repeated space or tab.
use crate::text::{chars_of, push_char};
use vstd::prelude::*;

verus! {

/// An indentation: `count` copies of `character`.
#[derive(Copy, Clone, Debug, PartialEq, Eq, Structural)]
pub struct Indentation {
    pub character: char,
    pub count: usize,
}

/// The text of an indentation.
pub open spec fn spec_render(indentation: Indentation) -> Seq<char> {
    Seq::new(indentation.count as nat, |_i: int| indentation.character)
}

/// How `s` is read as an indentation.
pub open spec fn spec_parse(s: Seq<char>) -> Result<Indentation, &'static str> {
    if s.len() == 0 {
        Err("indentation must not be empty")
    } else if !(s[0] == ' ' || s[0] == '\t') {
        Err("indentation must be spaces or tabs")
    } else if exists|i: int| 0 <= i < s.len() && #[trigger] s[i] != s[0] {
        Err("indentation may not be mixed")
    } else {
        Ok(Indentation { character: s[0], count: s.len() as usize })
    }
}

/// Rendering an indentation of at least one space or tab and reading it
/// back gives the same indentation.
pub proof fn lemma_indentation_round_trip(indentation: Indentation)
    requires
        indentation.count >= 1,
        indentation.character == ' ' || indentation.character == '\t',
    ensures
        spec_parse(spec_render(indentation)) == Ok::<Indentation, &'static str>(indentation),
{
    let s = spec_render(indentation);
    assert(s[0] == indentation.character);
    assert(!(exists|i: int| 0 <= i < s.len() && #[trigger] s[i] != s[0]));
}

impl Indentation {
    /// Four spaces.
    pub fn default() -> (r: Self)
        ensures
            r == (Indentation { character: ' ', count: 4 }),
    {
        Self { character: ' ', count: 4 }
    }

    /// The text of this indentation.
    pub fn to_string(&self) -> (r: String)
        ensures
            r@ == spec_render(*self),
    {
        let mut r = String::new();
        let mut i: usize = 0;
        while i < self.count
            invariant
                i <= self.count,
                r@ =~= Seq::new(i as nat, |_j: int| self.character),
            decreases self.count - i,
        {
            push_char(&mut r, self.character);
            i += 1;
        }
        r
    }

    /// Read an indentation: one or more of the same space or tab.
    pub fn from_str(s: &str) -> (r: Result<Self, &'static str>)
        ensures
            r == spec_parse(s@),
    {
        let chars = chars_of(s);
        if chars.len() == 0 {
            return Err("indentation must not be empty");
        }
        let character = chars[0];
        if !(character == ' ' || character == '\t') {
            return Err("indentation must be spaces or tabs");
        }
        let mut i: usize = 1;
        while i < chars.len()
            invariant
                chars@ == s@,
                character == chars@[0],
                character == ' ' || character == '\t',
                1 <= i <= chars.len(),
                forall|j: int| 0 <= j < i ==> chars@[j] == character,
            decreases chars.len() - i,
        {
            if chars[i] != character {
                assert(s@[i as int] != s@[0]);
                return Err("indentation may not be mixed");
            }
            i += 1;
        }
        Ok(Self { count: chars.len(), character })
    }
}

} // verus!
