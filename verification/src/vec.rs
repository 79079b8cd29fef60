//! The dynamic-length wrapper: a resizable ordered sequence of `T` carried on
//! the wire as one comma-separated text field.
use vstd::prelude::*;

use crate::element::{all_parse, first_failure, format_spec, parse_all, Element, ParseError};
use crate::text::{split_tokens, tokens};

verus! {

/// A resizable ordered sequence of `T`, parsed from and formatted to a single
/// comma-separated text field.
#[derive(Debug, Clone, PartialEq, Eq)]
pub struct CS<T>(pub Vec<T>);

impl<T> View for CS<T> {
    type V = Seq<T>;

    open spec fn view(&self) -> Seq<T> {
        self.0@
    }
}

impl<T> CS<T> {
    /// Give up the wrapper for its underlying sequence.
    pub fn into_inner(self) -> (r: Vec<T>)
        ensures
            r@ == self@,
    {
        self.0
    }

    /// Borrow the underlying sequence.
    pub fn to_inner(&self) -> (r: &Vec<T>)
        ensures
            r@ == self@,
    {
        &self.0
    }

    /// Borrow the underlying sequence for in-place mutation.
    pub fn to_inner_mut(&mut self) -> (r: &mut Vec<T>)
        ensures
            r@ == old(self)@,
            final(self)@ == final(r)@,
    {
        &mut self.0
    }
}

impl<T> AsRef<[T]> for CS<T> {
    fn as_ref(&self) -> (r: &[T])
        ensures
            r@ == self@,
    {
        self.0.as_slice()
    }
}

impl<T> Default for CS<T> {
    /// The empty sequence.
    fn default() -> (r: Self)
        ensures
            r@ == Seq::<T>::empty(),
    {
        CS(Vec::new())
    }
}

impl<T> From<Vec<T>> for CS<T> {
    fn from(v: Vec<T>) -> (r: Self) {
        CS(v)
    }
}

impl<T> vstd::std_specs::convert::FromSpecImpl<Vec<T>> for CS<T> {
    open spec fn obeys_from_spec() -> bool {
        true
    }

    open spec fn from_spec(v: Vec<T>) -> Self {
        CS(v)
    }
}

impl<T: Element> CS<T> {
    /// Parse a comma-separated list: split on commas, discard empty tokens,
    /// parse every surviving token in order, and fail on the first token that
    /// `T`'s parser rejects.
    pub fn from_str(s: &str) -> (r: Result<Self, ParseError>)
        ensures
            ({
                let toks = tokens(s@);
                match r {
                    Ok(cs) => all_parse::<T>(toks) && cs@ == parse_all::<T>(toks),
                    Err(e) => !all_parse::<T>(toks) && exists|j: int|
                        #[trigger] first_failure::<T>(toks, j) && e.token@ == toks[j],
                }
            }),
    {
        let toks = split_tokens(s);
        let mut vals: Vec<T> = Vec::new();
        let mut i: usize = 0;
        while i < toks.len()
            invariant
                i <= toks@.len(),
                toks.deep_view() == tokens(s@),
                forall|k: int| 0 <= k < i ==> T::parse_spec(#[trigger] toks.deep_view()[k]) is Some,
                vals@.len() == i,
                forall|k: int| 0 <= k < i ==> vals@[k] == T::parse_spec(
                    toks.deep_view()[k],
                ).unwrap(),
            decreases toks@.len() - i,
        {
            proof {
                assert(toks.deep_view()[i as int] == toks@[i as int]@);
            }
            match T::parse(toks[i].as_str()) {
                Some(v) => {
                    vals.push(v);
                }
                None => {
                    proof {
                        assert(first_failure::<T>(tokens(s@), i as int));
                    }
                    return Err(ParseError { token: toks[i].clone() });
                }
            }
            i = i + 1;
        }
        proof {
            assert(vals@ =~= parse_all::<T>(tokens(s@)));
        }
        Ok(CS(vals))
    }

    /// Format as a comma-separated list: each element's own text, joined by
    /// single commas; the empty sequence formats to the empty string.
    pub fn to_text(&self) -> (r: String)
        ensures
            r@ == format_spec(self@),
    {
        let mut out = String::new();
        let mut i: usize = 0;
        proof {
            assert(self@.take(0) =~= Seq::<T>::empty());
        }
        while i < self.0.len()
            invariant
                i <= self@.len(),
                self@ == self.0@,
                out@ == format_spec(self@.take(i as int)),
            decreases self@.len() - i,
        {
            if i > 0 {
                out.append(",");
            }
            let d = self.0[i].display();
            out.append(d.as_str());
            proof {
                reveal_strlit(",");
                let taken = self@.take(i as int + 1);
                assert(taken.drop_last() =~= self@.take(i as int));
                assert(taken.last() == self@[i as int]);
                if i > 0 {
                    assert(out@ =~= format_spec(self@.take(i as int)) + seq![','] + self@[
                        i as int
                    ].display_spec());
                } else {
                    assert(out@ =~= self@[0].display_spec());
                }
            }
            i = i + 1;
        }
        proof {
            assert(self@.take(self@.len() as int) =~= self@);
        }
        out
    }
}

} // verus!
