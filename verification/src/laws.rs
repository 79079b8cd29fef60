//! The laws the wrappers obey, proved once and for all: formatting a
//! sequence and parsing the text back gives the sequence again, whenever each
//! element's own text is non-empty, comma-free and parses back to itself.
use vstd::prelude::*;

use crate::element::{
    all_parse, format_spec, lemma_u32_display_parses, parse_all, Element,
};
use crate::text::{
    lemma_tokens_all_commas, lemma_tokens_from_append_comma_free, lemma_tokens_from_comma, tokens,
    tokens_from,
};

verus! {

/// The text of a sequence read from the front: the first element's text,
/// then a comma, then the text of the rest.
proof fn lemma_format_cons<T: Element>(v: Seq<T>)
    requires
        v.len() >= 2,
    ensures
        format_spec(v) == v[0].display_spec() + seq![','] + format_spec(v.skip(1)),
    decreases v.len(),
{
    if v.len() == 2 {
        assert(v.drop_last().len() == 1);
        assert(v.drop_last()[0] == v[0]);
        assert(v.skip(1).len() == 1);
        assert(v.skip(1)[0] == v.last());
        assert(format_spec(v.drop_last()) == v[0].display_spec());
        assert(format_spec(v.skip(1)) == v.last().display_spec());
    } else {
        lemma_format_cons(v.drop_last());
        assert(v.drop_last()[0] == v[0]);
        assert(v.skip(1).drop_last() =~= v.drop_last().skip(1));
        assert(v.skip(1).last() == v.last());
        assert(format_spec(v.skip(1)) == format_spec(v.skip(1).drop_last()) + seq![','] + v.skip(
            1,
        ).last().display_spec());
        assert((v[0].display_spec() + seq![','] + format_spec(v.drop_last().skip(1))) + seq![',']
            + v.last().display_spec() =~= v[0].display_spec() + seq![','] + (format_spec(
            v.drop_last().skip(1),
        ) + seq![','] + v.last().display_spec()));
    }
}

/// Splitting the text of a sequence gives back exactly one token per
/// element, namely its text, provided every element's text is non-empty and
/// comma-free.
pub proof fn lemma_tokens_of_format<T: Element>(v: Seq<T>)
    requires
        forall|i: int| 0 <= i < v.len() ==> (#[trigger] v[i].display_spec()).len() > 0,
        forall|i: int, j: int|
            0 <= i < v.len() && 0 <= j < v[i].display_spec().len() ==> v[i].display_spec()[j]
                != ',',
    ensures
        tokens(format_spec(v)) == Seq::new(v.len(), |i: int| v[i].display_spec()),
    decreases v.len(),
{
    let empty = Seq::<char>::empty();
    if v.len() == 0 {
        assert(tokens(format_spec(v)) =~= Seq::new(v.len(), |i: int| v[i].display_spec()));
    } else if v.len() == 1 {
        let d = v[0].display_spec();
        assert(d + empty =~= d);
        lemma_tokens_from_append_comma_free(d, empty, empty);
        assert(empty + d =~= d);
        assert(tokens_from(empty, d) == seq![d]);
        assert(tokens(format_spec(v)) =~= Seq::new(v.len(), |i: int| v[i].display_spec()));
    } else {
        let d = v[0].display_spec();
        let rest = format_spec(v.skip(1));
        lemma_format_cons(v);
        assert(format_spec(v) =~= d + (seq![','] + rest));
        lemma_tokens_from_append_comma_free(d, seq![','] + rest, empty);
        assert(empty + d =~= d);
        lemma_tokens_from_comma(rest, d);
        assert(forall|i: int|
            0 <= i < v.skip(1).len() ==> (#[trigger] v.skip(1)[i].display_spec()).len() > 0);
        assert(forall|i: int, j: int|
            0 <= i < v.skip(1).len() && 0 <= j < v.skip(1)[i].display_spec().len() ==> v.skip(
                1,
            )[i].display_spec()[j] != ',');
        lemma_tokens_of_format(v.skip(1));
        assert(tokens(format_spec(v)) == seq![d] + Seq::new(
            v.skip(1).len(),
            |i: int| v.skip(1)[i].display_spec(),
        ));
        assert(seq![d] + Seq::new(v.skip(1).len(), |i: int| v.skip(1)[i].display_spec()) =~= Seq::new(
            v.len(),
            |i: int| v[i].display_spec(),
        ));
    }
}

/// Round trip: parsing the text of a sequence succeeds and gives back
/// exactly that sequence, in order, whenever every element's text is
/// non-empty, comma-free and parses back to the element.
pub proof fn lemma_round_trip<T: Element>(v: Seq<T>)
    requires
        forall|i: int| 0 <= i < v.len() ==> (#[trigger] v[i].display_spec()).len() > 0,
        forall|i: int, j: int|
            0 <= i < v.len() && 0 <= j < v[i].display_spec().len() ==> v[i].display_spec()[j]
                != ',',
        forall|i: int|
            0 <= i < v.len() ==> T::parse_spec(#[trigger] v[i].display_spec()) == Some(v[i]),
    ensures
        all_parse::<T>(tokens(format_spec(v))),
        parse_all::<T>(tokens(format_spec(v))) == v,
{
    lemma_tokens_of_format(v);
    assert(parse_all::<T>(tokens(format_spec(v))) =~= v);
}

/// A string made of commas alone (or empty) parses without failure and
/// denotes no elements at all: the dynamic wrapper comes back empty, and
/// every slot of the fixed wrapper keeps its default.
pub proof fn lemma_comma_only_parses_empty<T: Element>(s: Seq<char>)
    requires
        forall|i: int| 0 <= i < s.len() ==> s[i] == ',',
    ensures
        tokens(s).len() == 0,
        all_parse::<T>(tokens(s)),
        parse_all::<T>(tokens(s)) == Seq::<T>::empty(),
{
    lemma_tokens_all_commas(s);
    assert(parse_all::<T>(tokens(s)) =~= Seq::<T>::empty());
}

/// Round trip for `u32` sequences, with nothing asked of the elements.
pub proof fn lemma_u32_round_trip(v: Seq<u32>)
    ensures
        all_parse::<u32>(tokens(format_spec(v))),
        parse_all::<u32>(tokens(format_spec(v))) == v,
{
    assert forall|i: int| 0 <= i < v.len() implies (#[trigger] v[i].display_spec()).len() > 0
        && <u32 as Element>::parse_spec(v[i].display_spec()) == Some(v[i]) by {
        lemma_u32_display_parses(v[i]);
    }
    assert forall|i: int, j: int|
        0 <= i < v.len() && 0 <= j < v[i].display_spec().len() implies v[i].display_spec()[j]
        != ',' by {
        lemma_u32_display_parses(v[i]);
    }
    lemma_round_trip::<u32>(v);
}

} // verus!
