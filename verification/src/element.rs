//! The element capability: a type that can be parsed from and displayed as
//! text, so that a sequence of such values can ride in one comma-separated
//! field.
use vstd::prelude::*;

verus! {

/// A list element: parseable from a token with a typed failure (`None`), and
/// displayable as text. `parse_spec` and `display_spec` are the mathematical
/// statements the executable methods are held to.
pub trait Element: Sized {
    /// The value a token denotes, or `None` when the token is malformed.
    spec fn parse_spec(t: Seq<char>) -> Option<Self>;

    /// The canonical text of a value.
    spec fn display_spec(&self) -> Seq<char>;

    /// Parse one token.
    fn parse(t: &str) -> (r: Option<Self>)
        ensures
            r == Self::parse_spec(t@),
    ;

    /// Render one value as text.
    fn display(&self) -> (r: String)
        ensures
            r@ == self.display_spec(),
    ;
}

/// An element with a default value, required by the fixed-length wrapper to
/// fill slots the input does not cover.
pub trait DefaultElement: Element {
    /// The default value.
    spec fn default_spec() -> Self;

    /// Produce the default value.
    fn default_val() -> (r: Self)
        ensures
            r == Self::default_spec(),
    ;
}

/// The failure of a whole-list parse: carries the first token that `T`'s
/// parser rejected.
#[derive(Debug, Clone, PartialEq, Eq)]
pub struct ParseError {
    pub token: String,
}

/// Every token in `toks` parses as a `T`.
pub open spec fn all_parse<T: Element>(toks: Seq<Seq<char>>) -> bool {
    forall|i: int| 0 <= i < toks.len() ==> T::parse_spec(toks[i]) is Some
}

/// The values the tokens denote, position by position.
pub open spec fn parse_all<T: Element>(toks: Seq<Seq<char>>) -> Seq<T> {
    Seq::new(toks.len(), |i: int| T::parse_spec(toks[i]).unwrap())
}

/// `j` is the position of the first token of `toks` that fails to parse.
pub open spec fn first_failure<T: Element>(toks: Seq<Seq<char>>, j: int) -> bool {
    &&& 0 <= j < toks.len()
    &&& T::parse_spec(toks[j]) is None
    &&& forall|i: int| 0 <= i < j ==> T::parse_spec(toks[i]) is Some
}

/// `c` is a decimal digit.
pub open spec fn is_digit(c: char) -> bool {
    '0' as int <= c as int && c as int <= '9' as int
}

/// The numeric value of the digit `c`.
pub open spec fn digit_val(c: char) -> nat {
    (c as int - '0' as int) as nat
}

/// Every character of `t` is a decimal digit.
pub open spec fn all_digits(t: Seq<char>) -> bool {
    forall|i: int| 0 <= i < t.len() ==> is_digit(t[i])
}

/// The number a run of digits denotes, most significant digit first.
pub open spec fn digits_val(t: Seq<char>) -> nat
    decreases t.len(),
{
    if t.len() == 0 {
        0
    } else {
        digits_val(t.drop_last()) * 10 + digit_val(t.last())
    }
}

/// The character of the digit `d`, for `d < 10`.
pub open spec fn digit_char(d: nat) -> char {
    if d == 0 {
        '0'
    } else if d == 1 {
        '1'
    } else if d == 2 {
        '2'
    } else if d == 3 {
        '3'
    } else if d == 4 {
        '4'
    } else if d == 5 {
        '5'
    } else if d == 6 {
        '6'
    } else if d == 7 {
        '7'
    } else if d == 8 {
        '8'
    } else {
        '9'
    }
}

/// The digits of a numeral after its optional leading plus sign.
pub open spec fn numeral_digits(t: Seq<char>) -> Seq<char> {
    if t.len() > 0 && t[0] == '+' {
        t.skip(1)
    } else {
        t
    }
}

/// The decimal digits of `n` without leading zeros; empty for zero.
pub open spec fn digits_of(n: nat) -> Seq<char>
    decreases n,
{
    if n == 0 {
        Seq::<char>::empty()
    } else {
        digits_of(n / 10).push(digit_char(n % 10))
    }
}

/// The canonical decimal text of `n`: `"0"` for zero, else its digits.
pub open spec fn decimal(n: nat) -> Seq<char> {
    if n == 0 {
        seq!['0']
    } else {
        digits_of(n)
    }
}

/// The text of a sequence of values: their displays joined by single commas,
/// the empty string for the empty sequence.
pub open spec fn format_spec<T: Element>(v: Seq<T>) -> Seq<char>
    decreases v.len(),
{
    if v.len() == 0 {
        Seq::<char>::empty()
    } else if v.len() == 1 {
        v[0].display_spec()
    } else {
        format_spec(v.drop_last()) + seq![','] + v.last().display_spec()
    }
}

/// Under `all_digits(t)`, a prefix of a numeral denotes no more than the
/// whole numeral.
proof fn lemma_digits_val_take_le(t: Seq<char>, j: int)
    requires
        0 <= j <= t.len(),
        all_digits(t),
    ensures
        digits_val(t.take(j)) <= digits_val(t),
    decreases t.len(),
{
    if j < t.len() {
        let u = t.drop_last();
        assert(all_digits(u));
        assert(u.take(j) =~= t.take(j));
        lemma_digits_val_take_le(u, j);
        assert(digits_val(t) == digits_val(u) * 10 + digit_val(t.last()));
    } else {
        assert(t.take(j) =~= t);
    }
}

/// The decimal digits of `n` are all digits, none is a comma, they denote
/// `n`, and there is at least one of them when `n` is positive.
pub proof fn lemma_digits_of_props(n: nat)
    ensures
        all_digits(digits_of(n)),
        digits_val(digits_of(n)) == n,
        forall|i: int| 0 <= i < digits_of(n).len() ==> digits_of(n)[i] != ',',
        n > 0 ==> digits_of(n).len() > 0,
    decreases n,
{
    if n > 0 {
        lemma_digits_of_props(n / 10);
        let s = digits_of(n / 10);
        let c = digit_char(n % 10);
        assert(digits_of(n) == s.push(c));
        assert(s.push(c).drop_last() =~= s);
        assert(s.push(c).last() == c);
        assert(digit_val(c) == n % 10);
        assert(digits_val(digits_of(n)) == (n / 10) * 10 + n % 10);
        vstd::arithmetic::div_mod::lemma_fundamental_div_mod(n as int, 10);
        assert(is_digit(c));
        assert(c != ',');
        assert(forall|i: int| 0 <= i < s.push(c).len() ==> is_digit(s.push(c)[i]));
    }
}

/// Displaying a `u32` yields non-empty, comma-free text that parses back to
/// the same value.
pub proof fn lemma_u32_display_parses(x: u32)
    ensures
        x.display_spec().len() > 0,
        forall|j: int| 0 <= j < x.display_spec().len() ==> x.display_spec()[j] != ',',
        <u32 as Element>::parse_spec(x.display_spec()) == Some(x),
{
    if x == 0 {
        let t = seq!['0'];
        assert(x.display_spec() == t);
        assert(t[0] != '+');
        assert(numeral_digits(t) == t);
        assert(t.drop_last() =~= Seq::<char>::empty());
        assert(digits_val(t.drop_last()) == 0);
        assert(t.last() == '0');
        assert(digit_val('0') == 0);
        assert(digits_val(t) == digits_val(t.drop_last()) * 10 + digit_val(t.last()));
        assert(digits_val(t) == 0);
        assert(all_digits(t));
    } else {
        lemma_digits_of_props(x as nat);
        let t = digits_of(x as nat);
        assert(x.display_spec() == t);
        assert(is_digit(t[0]));
        assert(t[0] != '+');
        assert(numeral_digits(t) == t);
        assert(digits_val(x.display_spec()) == x as nat);
    }
}

/// The one-character text of the digit `d`.
fn digit_str(d: u32) -> (r: &'static str)
    requires
        d < 10,
    ensures
        r@ == seq![digit_char(d as nat)],
{
    let r: &'static str = if d == 0 {
        "0"
    } else if d == 1 {
        "1"
    } else if d == 2 {
        "2"
    } else if d == 3 {
        "3"
    } else if d == 4 {
        "4"
    } else if d == 5 {
        "5"
    } else if d == 6 {
        "6"
    } else if d == 7 {
        "7"
    } else if d == 8 {
        "8"
    } else {
        "9"
    };
    proof {
        reveal_strlit("0");
        reveal_strlit("1");
        reveal_strlit("2");
        reveal_strlit("3");
        reveal_strlit("4");
        reveal_strlit("5");
        reveal_strlit("6");
        reveal_strlit("7");
        reveal_strlit("8");
        reveal_strlit("9");
        assert(r@ =~= seq![digit_char(d as nat)]);
    }
    r
}

/// The digits collected least significant first, read back most significant
/// first.
spec fn digits_rev_chars(ds: Seq<u32>) -> Seq<char> {
    Seq::new(ds.len(), |i: int| digit_char(ds[ds.len() - 1 - i] as nat))
}

impl Element for u32 {
    /// A token denotes a `u32` when, after an optional leading plus sign, it
    /// is a non-empty run of decimal digits whose value fits.
    open spec fn parse_spec(t: Seq<char>) -> Option<u32> {
        let d = numeral_digits(t);
        if d.len() > 0 && all_digits(d) && digits_val(d) <= u32::MAX as nat {
            Some(digits_val(d) as u32)
        } else {
            None
        }
    }

    open spec fn display_spec(&self) -> Seq<char> {
        decimal(*self as nat)
    }

    fn parse(t: &str) -> (r: Option<u32>) {
        let ghost d = numeral_digits(t@);
        let n: usize = t.unicode_len();
        let mut start: usize = 0;
        if n > 0 && t.get_char(0) == '+' {
            start = 1;
        }
        proof {
            assert(d =~= t@.skip(start as int));
        }
        if n == start {
            return None;
        }
        let mut acc: u32 = 0;
        let mut i: usize = start;
        while i < n
            invariant
                n == t@.len(),
                start <= i <= n,
                start < n,
                d == numeral_digits(t@),
                d == t@.skip(start as int),
                d.len() == n - start,
                all_digits(d.take(i - start)),
                acc as nat == digits_val(d.take(i - start)),
            decreases n - i,
        {
            let c = t.get_char(i);
            let cv: u32 = c as u32;
            proof {
                assert(d[i - start] == t@[i as int]);
            }
            if cv < '0' as u32 || cv > '9' as u32 {
                proof {
                    assert(!is_digit(d[i - start]));
                }
                return None;
            }
            let dv: u32 = cv - '0' as u32;
            proof {
                assert(d.take(i - start + 1).drop_last() =~= d.take(i - start));
                assert(d.take(i - start + 1).last() == d[i - start]);
                assert(digit_val(d[i - start]) == dv as nat);
            }
            let next = match acc.checked_mul(10) {
                Some(m) => m.checked_add(dv),
                None => None,
            };
            match next {
                Some(v) => {
                    acc = v;
                }
                None => {
                    proof {
                        assert(digits_val(d.take(i - start + 1)) > u32::MAX as nat);
                        if all_digits(d) {
                            lemma_digits_val_take_le(d, i - start + 1);
                        }
                    }
                    return None;
                }
            }
            i = i + 1;
        }
        proof {
            assert(d.take(n - start) =~= d);
        }
        Some(acc)
    }

    fn display(&self) -> (r: String) {
        let v: u32 = *self;
        if v == 0 {
            let mut out = String::new();
            out.append(digit_str(0));
            proof {
                assert(out@ =~= decimal(0));
            }
            return out;
        }
        let mut n: u32 = v;
        let mut rev: Vec<u32> = Vec::new();
        proof {
            assert(digits_of(v as nat) + digits_rev_chars(rev@) =~= digits_of(v as nat));
        }
        while n > 0
            invariant
                forall|k: int| 0 <= k < rev@.len() ==> rev@[k] < 10,
                digits_of(v as nat) == digits_of(n as nat) + digits_rev_chars(rev@),
            decreases n,
        {
            let d: u32 = n % 10;
            let ghost old_rev = rev@;
            rev.push(d);
            n = n / 10;
            proof {
                assert(digits_rev_chars(rev@) =~= seq![digit_char(d as nat)] + digits_rev_chars(
                    old_rev,
                ));
                assert(digits_of(n as nat).push(digit_char(d as nat)) + digits_rev_chars(old_rev)
                    =~= digits_of(n as nat) + (seq![digit_char(d as nat)] + digits_rev_chars(
                    old_rev,
                )));
            }
        }
        let mut out = String::new();
        let mut i: usize = rev.len();
        proof {
            assert(out@ =~= digits_rev_chars(rev@).take(rev@.len() - i as int));
        }
        while i > 0
            invariant
                i <= rev@.len(),
                forall|k: int| 0 <= k < rev@.len() ==> rev@[k] < 10,
                digits_of(v as nat) == digits_rev_chars(rev@),
                out@ == digits_rev_chars(rev@).take(rev@.len() - i as int),
            decreases i,
        {
            i = i - 1;
            let d: u32 = rev[i];
            out.append(digit_str(d));
            proof {
                assert(out@ =~= digits_rev_chars(rev@).take(rev@.len() - i as int));
            }
        }
        proof {
            assert(digits_rev_chars(rev@).take(rev@.len() as int) =~= digits_rev_chars(rev@));
            assert(v as nat != 0);
        }
        out
    }
}

impl DefaultElement for u32 {
    open spec fn default_spec() -> u32 {
        0u32
    }

    fn default_val() -> (r: u32) {
        0
    }
}

} // verus!
