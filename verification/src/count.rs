//! A noun together with a count, rendered as "1 dog", "2 dogs", "2 feet".
use crate::text::{decimal, digits};
use vstd::prelude::*;
use vstd::string::*;

verus! {

/// A noun to be pluralised according to a count.
pub struct Count {
    count: usize,
    irregular: Option<&'static str>,
    noun: &'static str,
    numbered: bool,
}

/// The text of a count: the number and a space if `numbered`, then the noun,
/// which takes its irregular plural or an `s` unless the count is one.
pub open spec fn count_text(
    count: nat,
    irregular: Option<Seq<char>>,
    noun: Seq<char>,
    numbered: bool,
) -> Seq<char> {
    let number = if numbered {
        digits(count, 10) + seq![' ']
    } else {
        Seq::empty()
    };
    let word = match irregular {
        Some(plural) => if count == 1 {
            noun
        } else {
            plural
        },
        None => if count == 1 {
            noun
        } else {
            noun + seq!['s']
        },
    };
    number + word
}

impl Count {
    /// The text this count renders to.
    pub closed spec fn text(&self) -> Seq<char> {
        count_text(
            self.count as nat,
            match self.irregular {
                Some(p) => Some(p@),
                None => None,
            },
            self.noun@,
            self.numbered,
        )
    }

    /// `count` followed by `noun`, with a regular plural.
    pub fn numbered(noun: &'static str, count: usize) -> (r: Self)
        ensures
            r.text() == count_text(count as nat, None, noun@, true),
    {
        Self { count, irregular: None, noun, numbered: true }
    }

    /// `count` followed by `noun`, with the plural `irregular`.
    pub fn numbered_irregular(noun: &'static str, irregular: &'static str, count: usize) -> (r: Self)
        ensures
            r.text() == count_text(count as nat, Some(irregular@), noun@, true),
    {
        Self { count, irregular: Some(irregular), noun, numbered: true }
    }

    /// `noun` alone, with a regular plural chosen by `count`.
    pub fn unnumbered(noun: &'static str, count: usize) -> (r: Self)
        ensures
            r.text() == count_text(count as nat, None, noun@, false),
    {
        Self { count, irregular: None, noun, numbered: false }
    }

    /// The rendered text.
    pub fn to_string(&self) -> (r: String)
        ensures
            r@ == self.text(),
    {
        let mut r = if self.numbered {
            let mut number = decimal(self.count);
            number.append(" ");
            number
        } else {
            String::new()
        };
        match self.irregular {
            Some(irregular) => {
                if self.count == 1 {
                    r.append(self.noun);
                } else {
                    r.append(irregular);
                }
            },
            None => {
                r.append(self.noun);
                if self.count != 1 {
                    r.append("s");
                }
            },
        }
        proof {
            reveal_strlit(" ");
            reveal_strlit("s");
        }
        assert(r@ =~= self.text());
        r
    }
}

} // verus!
