//! The comma-separated token grammar shared by both wrappers: splitting a
//! string on commas and discarding the empty tokens that leading, trailing or
//! repeated commas produce.
use vstd::prelude::*;
use vstd::string::*;

verus! {

/// The tokens still to be produced from the unread text `s`, continuing a
/// partially read token `cur`: maximal runs of non-comma characters, with
/// empty runs discarded.
pub open spec fn tokens_from(s: Seq<char>, cur: Seq<char>) -> Seq<Seq<char>>
    decreases s.len(),
{
    if s.len() == 0 {
        if cur.len() == 0 {
            Seq::<Seq<char>>::empty()
        } else {
            seq![cur]
        }
    } else if s[0] == ',' {
        if cur.len() == 0 {
            tokens_from(s.skip(1), Seq::<char>::empty())
        } else {
            seq![cur] + tokens_from(s.skip(1), Seq::<char>::empty())
        }
    } else {
        tokens_from(s.skip(1), cur.push(s[0]))
    }
}

/// The comma-separated tokens of `s`: the non-empty substrings between
/// commas, in order.
pub open spec fn tokens(s: Seq<char>) -> Seq<Seq<char>> {
    tokens_from(s, Seq::<char>::empty())
}

/// Reading a comma-free run extends the current token and produces nothing.
pub proof fn lemma_tokens_from_append_comma_free(t: Seq<char>, s: Seq<char>, cur: Seq<char>)
    requires
        forall|i: int| 0 <= i < t.len() ==> t[i] != ',',
    ensures
        tokens_from(t + s, cur) == tokens_from(s, cur + t),
    decreases t.len(),
{
    if t.len() == 0 {
        assert(t + s =~= s);
        assert(cur + t =~= cur);
    } else {
        assert((t + s)[0] == t[0]);
        assert((t + s).skip(1) =~= t.skip(1) + s);
        assert(forall|i: int| 0 <= i < t.skip(1).len() ==> t.skip(1)[i] != ',');
        lemma_tokens_from_append_comma_free(t.skip(1), s, cur.push(t[0]));
        assert(cur.push(t[0]) + t.skip(1) =~= cur + t);
    }
}

/// Reading a comma finishes the current token, dropping it when it is empty.
pub proof fn lemma_tokens_from_comma(s: Seq<char>, cur: Seq<char>)
    ensures
        tokens_from(seq![','] + s, cur) == (if cur.len() == 0 {
            tokens_from(s, Seq::<char>::empty())
        } else {
            seq![cur] + tokens_from(s, Seq::<char>::empty())
        }),
{
    assert((seq![','] + s)[0] == ',');
    assert((seq![','] + s).skip(1) =~= s);
}

/// A string made of commas alone (or empty) carries no tokens.
pub proof fn lemma_tokens_all_commas(s: Seq<char>)
    requires
        forall|i: int| 0 <= i < s.len() ==> s[i] == ',',
    ensures
        tokens(s).len() == 0,
    decreases s.len(),
{
    if s.len() > 0 {
        assert(forall|i: int| 0 <= i < s.skip(1).len() ==> s.skip(1)[i] == ',');
        lemma_tokens_all_commas(s.skip(1));
    }
}

/// A leading comma does not change the tokens.
pub proof fn lemma_tokens_leading_comma(s: Seq<char>)
    ensures
        tokens(seq![','] + s) == tokens(s),
{
    lemma_tokens_from_comma(s, Seq::<char>::empty());
}

proof fn lemma_tokens_from_trailing_comma(s: Seq<char>, cur: Seq<char>)
    ensures
        tokens_from(s + seq![','], cur) == tokens_from(s, cur),
    decreases s.len(),
{
    let u = s + seq![','];
    if s.len() == 0 {
        assert(u[0] == ',');
        assert(u.skip(1) =~= Seq::<char>::empty());
        assert(tokens_from(u.skip(1), Seq::<char>::empty()) == Seq::<Seq<char>>::empty());
        if cur.len() > 0 {
            assert(tokens_from(u, cur) == seq![cur] + Seq::<Seq<char>>::empty());
            assert(seq![cur] + Seq::<Seq<char>>::empty() =~= seq![cur]);
            assert(tokens_from(s, cur) == seq![cur]);
        } else {
            assert(tokens_from(u, cur) == Seq::<Seq<char>>::empty());
            assert(tokens_from(s, cur) == Seq::<Seq<char>>::empty());
        }
    } else {
        assert(u[0] == s[0]);
        assert(u.skip(1) =~= s.skip(1) + seq![',']);
        if s[0] == ',' {
            lemma_tokens_from_trailing_comma(s.skip(1), Seq::<char>::empty());
            assert(tokens_from(s.skip(1) + seq![','], Seq::<char>::empty()) == tokens_from(
                s.skip(1),
                Seq::<char>::empty(),
            ));
            if cur.len() == 0 {
                assert(tokens_from(u, cur) == tokens_from(u.skip(1), Seq::<char>::empty()));
                assert(tokens_from(s, cur) == tokens_from(s.skip(1), Seq::<char>::empty()));
            } else {
                assert(tokens_from(u, cur) == seq![cur] + tokens_from(
                    u.skip(1),
                    Seq::<char>::empty(),
                ));
                assert(tokens_from(s, cur) == seq![cur] + tokens_from(
                    s.skip(1),
                    Seq::<char>::empty(),
                ));
            }
        } else {
            lemma_tokens_from_trailing_comma(s.skip(1), cur.push(s[0]));
            assert(tokens_from(u, cur) == tokens_from(u.skip(1), cur.push(s[0])));
            assert(tokens_from(s, cur) == tokens_from(s.skip(1), cur.push(s[0])));
        }
    }
}

/// A trailing comma does not change the tokens.
pub proof fn lemma_tokens_trailing_comma(s: Seq<char>)
    ensures
        tokens(s + seq![',']) == tokens(s),
{
    lemma_tokens_from_trailing_comma(s, Seq::<char>::empty());
}

proof fn lemma_tokens_from_doubled_comma(a: Seq<char>, b: Seq<char>, cur: Seq<char>)
    ensures
        tokens_from(a + seq![','] + b, cur) == tokens_from(a + seq![','] + seq![','] + b, cur),
    decreases a.len(),
{
    if a.len() == 0 {
        assert(a + seq![','] + b =~= seq![','] + b);
        assert(a + seq![','] + seq![','] + b =~= seq![','] + (seq![','] + b));
        lemma_tokens_from_comma(b, cur);
        lemma_tokens_from_comma(seq![','] + b, cur);
        lemma_tokens_from_comma(b, Seq::<char>::empty());
    } else {
        assert((a + seq![','] + b)[0] == a[0]);
        assert((a + seq![','] + b).skip(1) =~= a.skip(1) + seq![','] + b);
        assert((a + seq![','] + seq![','] + b)[0] == a[0]);
        assert((a + seq![','] + seq![','] + b).skip(1) =~= a.skip(1) + seq![','] + seq![','] + b);
        if a[0] == ',' {
            lemma_tokens_from_doubled_comma(a.skip(1), b, Seq::<char>::empty());
        } else {
            lemma_tokens_from_doubled_comma(a.skip(1), b, cur.push(a[0]));
        }
    }
}

/// Doubling a comma does not change the tokens.
pub proof fn lemma_tokens_doubled_comma(a: Seq<char>, b: Seq<char>)
    ensures
        tokens(a + seq![','] + b) == tokens(a + seq![','] + seq![','] + b),
{
    lemma_tokens_from_doubled_comma(a, b, Seq::<char>::empty());
}

/// Split `s` on commas and keep the non-empty pieces, in order.
pub fn split_tokens(s: &str) -> (toks: Vec<String>)
    ensures
        toks.deep_view() == tokens(s@),
{
    let n: usize = s.unicode_len();
    let mut toks: Vec<String> = Vec::new();
    let mut start: usize = 0;
    let mut i: usize = 0;
    proof {
        assert(s@.skip(0) =~= s@);
        assert(s@.subrange(0, 0) =~= Seq::<char>::empty());
        assert(toks.deep_view() + tokens(s@) =~= tokens(s@));
    }
    while i < n
        invariant
            start <= i <= n,
            n == s@.len(),
            forall|k: int| start <= k < i ==> s@[k] != ',',
            tokens(s@) == toks.deep_view() + tokens_from(
                s@.skip(i as int),
                s@.subrange(start as int, i as int),
            ),
        decreases n - i,
    {
        let c = s.get_char(i);
        proof {
            assert(s@.skip(i as int)[0] == s@[i as int]);
            assert(s@.skip(i as int).skip(1) =~= s@.skip(i as int + 1));
        }
        if c == ',' {
            let ghost cur = s@.subrange(start as int, i as int);
            if start < i {
                let t = s.substring_char(start, i);
                let owned = String::from_str(t);
                let ghost old_dv = toks.deep_view();
                toks.push(owned);
                proof {
                    assert(toks.deep_view() =~= old_dv.push(cur));
                    assert(old_dv.push(cur) =~= old_dv + seq![cur]);
                    assert(tokens_from(s@.skip(i as int), cur) == seq![cur] + tokens_from(
                        s@.skip(i as int + 1),
                        Seq::<char>::empty(),
                    ));
                    assert(old_dv + (seq![cur] + tokens_from(
                        s@.skip(i as int + 1),
                        Seq::<char>::empty(),
                    )) =~= (old_dv + seq![cur]) + tokens_from(
                        s@.skip(i as int + 1),
                        Seq::<char>::empty(),
                    ));
                }
            } else {
                proof {
                    assert(cur.len() == 0);
                }
            }
            start = i + 1;
            proof {
                assert(s@.subrange(start as int, i as int + 1) =~= Seq::<char>::empty());
            }
        } else {
            proof {
                let cur = s@.subrange(start as int, i as int);
                assert(tokens_from(s@.skip(i as int), cur) == tokens_from(
                    s@.skip(i as int + 1),
                    cur.push(s@[i as int]),
                ));
                assert(cur.push(s@[i as int]) =~= s@.subrange(start as int, i as int + 1));
            }
        }
        i = i + 1;
    }
    proof {
        assert(s@.skip(n as int) =~= Seq::<char>::empty());
    }
    if start < n {
        let t = s.substring_char(start, n);
        let owned = String::from_str(t);
        let ghost old_dv = toks.deep_view();
        let ghost cur = s@.subrange(start as int, n as int);
        toks.push(owned);
        proof {
            assert(toks.deep_view() =~= old_dv.push(cur));
            assert(old_dv.push(cur) =~= old_dv + seq![cur]);
        }
    } else {
        proof {
            assert(s@.subrange(start as int, n as int).len() == 0);
            assert(toks.deep_view() + Seq::<Seq<char>>::empty() =~= toks.deep_view());
        }
    }
    toks
}

} // verus!
