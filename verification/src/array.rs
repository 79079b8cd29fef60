//! The fixed-length wrapper: exactly `N` elements of `T`, carried on the wire
//! as one comma-separated text field. Parsing fills slots the input does not
//! cover with `T`'s default and silently ignores excess tokens.
use vstd::prelude::*;

use crate::element::{first_failure, format_spec, DefaultElement, ParseError};
use crate::text::{split_tokens, tokens};

verus! {

broadcast use vstd::array::group_array_axioms;

/// An ordered sequence of exactly `N` elements of `T`, parsed from and
/// formatted to a single comma-separated text field.
#[derive(Debug, PartialEq, Eq)]
pub struct CS<T, const N: usize>(pub [T; N]);

impl<T, const N: usize> View for CS<T, N> {
    type V = Seq<T>;

    open spec fn view(&self) -> Seq<T> {
        self.0@
    }
}

/// The number of tokens the `N`-slot wrapper consumes from `k` available
/// tokens: all of them, up to `N`.
pub open spec fn consumed(k: nat, n: nat) -> nat {
    if k < n {
        k
    } else {
        n
    }
}

impl<T, const N: usize> CS<T, N> {
    /// Give up the wrapper for its underlying fixed-size sequence.
    pub fn into_inner(self) -> (r: [T; N])
        ensures
            r@ == self@,
    {
        self.0
    }

    /// Borrow the underlying fixed-size sequence.
    pub fn to_inner(&self) -> (r: &[T; N])
        ensures
            r@ == self@,
    {
        &self.0
    }
}

impl<T, const N: usize> AsRef<[T]> for CS<T, N> {
    fn as_ref(&self) -> (r: &[T])
        ensures
            r@ == self@,
    {
        self.0.as_slice()
    }
}

impl<T: DefaultElement + Copy, const N: usize> Default for CS<T, N> {
    /// `N` copies of `T`'s default.
    fn default() -> (r: Self)
        ensures
            r@.len() == N,
            forall|i: int| 0 <= i < N ==> r@[i] == T::default_spec(),
    {
        CS([T::default_val();N])
    }
}

impl<T: DefaultElement + Copy, const N: usize> CS<T, N> {
    /// Parse a comma-separated list into exactly `N` slots: split on commas,
    /// discard empty tokens, then pair tokens with slots in order until either
    /// runs out. Missing slots keep `T`'s default; excess tokens are ignored
    /// unparsed; the first consumed token that `T`'s parser rejects aborts the
    /// whole parse.
    pub fn from_str(s: &str) -> (r: Result<Self, ParseError>)
        ensures
            ({
                let toks = tokens(s@);
                let k = consumed(toks.len(), N as nat);
                match r {
                    Ok(cs) => {
                        &&& forall|i: int| 0 <= i < k ==> T::parse_spec(#[trigger] toks[i]) is Some
                        &&& forall|i: int| 0 <= i < k ==> cs@[i] == T::parse_spec(
                            #[trigger] toks[i],
                        ).unwrap()
                        &&& forall|i: int| k <= i < N ==> cs@[i] == T::default_spec()
                    },
                    Err(e) => exists|j: int|
                        #[trigger] first_failure::<T>(toks.take(k as int), j) && e.token@ == toks[j],
                }
            }),
    {
        let toks = split_tokens(s);
        let mut arr: [T; N] = [T::default_val();N];
        let mut i: usize = 0;
        while i < N && i < toks.len()
            invariant
                i <= N,
                i <= toks@.len(),
                toks.deep_view() == tokens(s@),
                forall|k: int| 0 <= k < i ==> T::parse_spec(#[trigger] toks.deep_view()[k]) is Some,
                forall|k: int| 0 <= k < i ==> arr@[k] == T::parse_spec(
                    toks.deep_view()[k],
                ).unwrap(),
                forall|k: int| i <= k < N ==> arr@[k] == T::default_spec(),
            decreases N - i,
        {
            proof {
                assert(toks.deep_view()[i as int] == toks@[i as int]@);
            }
            match T::parse(toks[i].as_str()) {
                Some(v) => {
                    arr[i] = v;
                }
                None => {
                    proof {
                        let toks_s = tokens(s@);
                        let k = consumed(toks_s.len(), N as nat);
                        assert(toks_s.take(k as int)[i as int] == toks_s[i as int]);
                        assert(first_failure::<T>(toks_s.take(k as int), i as int));
                    }
                    return Err(ParseError { token: toks[i].clone() });
                }
            }
            i = i + 1;
        }
        proof {
            assert(toks.deep_view().len() == toks@.len());
            assert(i as nat == consumed(tokens(s@).len(), N as nat));
        }
        Ok(CS(arr))
    }

    /// Format as a comma-separated list: always exactly `N` elements, each
    /// rendered by its own text rule, joined by single commas.
    pub fn to_text(&self) -> (r: String)
        ensures
            r@ == format_spec(self@),
    {
        let mut out = String::new();
        let mut i: usize = 0;
        proof {
            assert(self@.take(0) =~= Seq::<T>::empty());
        }
        while i < N
            invariant
                i <= N,
                self@.len() == N,
                out@ == format_spec(self@.take(i as int)),
            decreases N - i,
        {
            if i > 0 {
                out.append(",");
            }
            let d = self.0[i].display();
            out.append(d.as_str());
            proof {
                reveal_strlit(",");
                let taken = self@.take(i as int + 1);
                assert(taken.drop_last() =~= self@.take(i as int));
                assert(taken.last() == self@[i as int]);
                if i > 0 {
                    assert(out@ =~= format_spec(self@.take(i as int)) + seq![','] + self@[
                        i as int
                    ].display_spec());
                } else {
                    assert(out@ =~= self@[0].display_spec());
                }
            }
            i = i + 1;
        }
        proof {
            assert(self@.take(self@.len() as int) =~= self@);
        }
        out
    }
}

} // verus!
