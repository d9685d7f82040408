//! Text: decimal notation of integers, and comma-separated lists of names
//! and numbers.
use vstd::prelude::*;
use vstd::string::{StrSliceExecFns, StringExecFns};
use vstd::std_specs::iter::IteratorSpec;

verus! {

/// The ASCII byte of decimal digit `d`.
pub open spec fn digit_byte(d: nat) -> u8 {
    (48 + d) as u8
}

/// The decimal notation of `n` as ASCII bytes, without leading zeros.
pub open spec fn decimal_bytes(n: nat) -> Seq<u8>
    decreases n,
{
    if n < 10 {
        seq![digit_byte(n)]
    } else {
        decimal_bytes(n / 10).push(digit_byte(n % 10))
    }
}

/// The decimal notation of `n` as characters.
pub open spec fn decimal_chars(n: nat) -> Seq<char> {
    decimal_bytes(n).map_values(|b: u8| b as char)
}

/// The decimal notation of a signed integer: a minus sign before the
/// digits of its magnitude when it is negative.
pub open spec fn signed_decimal_bytes(v: i64) -> Seq<u8> {
    if v < 0 {
        seq![45u8] + decimal_bytes((-v) as nat)
    } else {
        decimal_bytes(v as nat)
    }
}

/// Appends the decimal notation of `n` to `out`.
pub fn push_decimal(out: &mut Vec<u8>, n: u64)
    ensures
        final(out)@ == old(out)@ + decimal_bytes(n as nat),
{
    // Digits come out least significant first; collect them, then reverse.
    let mut digits: Vec<u8> = Vec::new();
    let mut rest: u64 = n / 10;
    digits.push(48 + (n % 10) as u8);
    proof {
        assert(digits@.reverse() =~= seq![digit_byte((n % 10) as nat)]);
        assert(decimal_bytes(n as nat) =~= (if rest == 0 {
            Seq::<u8>::empty()
        } else {
            decimal_bytes(rest as nat)
        }) + digits@.reverse());
    }
    while rest > 0
        invariant
            decimal_bytes(n as nat) == (if rest == 0 {
                Seq::<u8>::empty()
            } else {
                decimal_bytes(rest as nat)
            }) + digits@.reverse(),
        decreases rest,
    {
        let d = (rest % 10) as u8;
        let next = rest / 10;
        proof {
            let nd = digits@.push((48 + d) as u8);
            assert(nd.reverse() =~= seq![(48 + d) as u8] + digits@.reverse());
            assert(decimal_bytes(rest as nat) =~= (if next == 0 {
                Seq::<u8>::empty()
            } else {
                decimal_bytes(next as nat)
            }) + seq![(48 + d) as u8]);
        }
        digits.push(48 + d);
        rest = next;
    }
    let ghost start = out@;
    let mut i = digits.len();
    while i > 0
        invariant
            0 <= i <= digits.len(),
            out@ == start + digits@.reverse().subrange(0, (digits.len() - i) as int),
        decreases i,
    {
        i = i - 1;
        proof {
            assert(digits@.reverse()[(digits.len() - i - 1) as int] == digits@[i as int]);
        }
        out.push(digits[i]);
        proof {
            assert(out@ =~= start + digits@.reverse().subrange(0, (digits.len() - i) as int));
        }
    }
    proof {
        assert(digits@.reverse().subrange(0, digits.len() as int) =~= digits@.reverse());
    }
}

/// The one-character text of a decimal digit byte.
fn digit_text(b: u8) -> (r: &'static str)
    requires
        48 <= b < 58,
    ensures
        r@ == seq![b as char],
{
    proof {
        reveal_strlit("0");
        reveal_strlit("1");
        reveal_strlit("2");
        reveal_strlit("3");
        reveal_strlit("4");
        reveal_strlit("5");
        reveal_strlit("6");
        reveal_strlit("7");
        reveal_strlit("8");
        reveal_strlit("9");
    }
    if b == 48 {
        "0"
    } else if b == 49 {
        "1"
    } else if b == 50 {
        "2"
    } else if b == 51 {
        "3"
    } else if b == 52 {
        "4"
    } else if b == 53 {
        "5"
    } else if b == 54 {
        "6"
    } else if b == 55 {
        "7"
    } else if b == 56 {
        "8"
    } else {
        "9"
    }
}

pub proof fn lemma_decimal_bytes_are_digits(n: nat)
    ensures
        forall|i: int| 0 <= i < decimal_bytes(n).len() ==> 48 <= #[trigger] decimal_bytes(n)[i] < 58,
    decreases n,
{
    if n >= 10 {
        lemma_decimal_bytes_are_digits(n / 10);
        assert(decimal_bytes(n) == decimal_bytes(n / 10).push(digit_byte(n % 10)));
        assert(48 <= digit_byte(n % 10) < 58);
    } else {
        assert(decimal_bytes(n) == seq![digit_byte(n)]);
        assert(48 <= digit_byte(n) < 58);
    }
}

/// The decimal notation of `n`.
pub fn decimal_string(n: u64) -> (r: String)
    ensures
        r@ == decimal_chars(n as nat),
{
    let mut digits: Vec<u8> = Vec::new();
    push_decimal(&mut digits, n);
    proof {
        assert(digits@ =~= decimal_bytes(n as nat));
        lemma_decimal_bytes_are_digits(n as nat);
    }
    let mut r = String::new();
    for i in 0..digits.len()
        invariant
            digits@ == decimal_bytes(n as nat),
            forall|j: int| 0 <= j < digits.len() ==> 48 <= #[trigger] digits@[j] < 58,
            r@ == decimal_chars(n as nat).subrange(0, i as int),
    {
        let text = digit_text(digits[i]);
        r.append(text);
        proof {
            assert(r@ =~= decimal_chars(n as nat).subrange(0, i + 1));
        }
    }
    proof {
        assert(decimal_chars(n as nat).subrange(0, digits.len() as int) =~= decimal_chars(n as nat));
    }
    r
}

/// Whether `c` is white space (the Unicode White_Space property, which is
/// what `char::is_whitespace` tests).
pub open spec fn is_white_space(c: char) -> bool {
    ||| '\t' <= c <= '\r'
    ||| c == ' '
    ||| c == '\u{85}'
    ||| c == '\u{A0}'
    ||| c == '\u{1680}'
    ||| '\u{2000}' <= c <= '\u{200A}'
    ||| c == '\u{2028}'
    ||| c == '\u{2029}'
    ||| c == '\u{202F}'
    ||| c == '\u{205F}'
    ||| c == '\u{3000}'
}

pub fn white_space(c: char) -> (r: bool)
    ensures
        r == is_white_space(c),
{
    ('\t' <= c && c <= '\r') || c == ' ' || c == '\u{85}' || c == '\u{A0}' || c == '\u{1680}' || ('\u{2000}' <= c
        && c <= '\u{200A}') || c == '\u{2028}' || c == '\u{2029}' || c == '\u{202F}' || c == '\u{205F}' || c
        == '\u{3000}'
}

/// `s` without its leading white space.
pub open spec fn strip_front(s: Seq<char>) -> Seq<char>
    decreases s.len(),
{
    if s.len() > 0 && is_white_space(s[0]) {
        strip_front(s.drop_first())
    } else {
        s
    }
}

/// `s` without its trailing white space.
pub open spec fn strip_back(s: Seq<char>) -> Seq<char>
    decreases s.len(),
{
    if s.len() > 0 && is_white_space(s.last()) {
        strip_back(s.drop_last())
    } else {
        s
    }
}

/// `s` without leading and trailing white space.
pub open spec fn trimmed(s: Seq<char>) -> Seq<char> {
    strip_back(strip_front(s))
}

/// The pieces of `s` between commas: one more piece than there are commas,
/// empty pieces included.
pub open spec fn comma_pieces(s: Seq<char>) -> Seq<Seq<char>>
    decreases s.len(),
{
    if s.len() == 0 {
        seq![Seq::<char>::empty()]
    } else {
        let before = comma_pieces(s.drop_last());
        if s.last() == ',' {
            before.push(Seq::empty())
        } else {
            before.drop_last().push(before.last().push(s.last()))
        }
    }
}

pub proof fn lemma_comma_pieces_nonempty(s: Seq<char>)
    ensures
        comma_pieces(s).len() > 0,
    decreases s.len(),
{
    if s.len() > 0 {
        lemma_comma_pieces_nonempty(s.drop_last());
    }
}

/// The characters of `s`.
fn chars_of(s: &str) -> (r: Vec<char>)
    ensures
        r@ == s@,
{
    let mut r: Vec<char> = Vec::new();
    let iter = s.chars();
    let ghost g = iter.remaining();
    proof {
        assert(g == s@);
    }
    for c in it: iter
        invariant
            it.seq() == g,
            r@ == g.take(it.index() as int),
        ensures
            r@ == g,
    {
        r.push(c);
        proof {
            assert(r@ =~= g.take(it.index() + 1));
        }
    }
    r
}

/// The bounds of `cs[from..to]` without its leading and trailing white space.
fn trim_bounds(cs: &Vec<char>, from: usize, to: usize) -> (r: (usize, usize))
    requires
        from <= to <= cs.len(),
    ensures
        from <= r.0 <= r.1 <= to,
        cs@.subrange(r.0 as int, r.1 as int) == trimmed(cs@.subrange(from as int, to as int)),
{
    let mut a = from;
    while a < to && white_space(cs[a])
        invariant
            from <= a <= to <= cs.len(),
            strip_front(cs@.subrange(from as int, to as int)) == strip_front(cs@.subrange(a as int, to as int)),
        decreases to - a,
    {
        proof {
            assert(cs@.subrange(a as int, to as int).drop_first() =~= cs@.subrange(a + 1, to as int));
        }
        a = a + 1;
    }
    proof {
        assert(strip_front(cs@.subrange(a as int, to as int)) == cs@.subrange(a as int, to as int));
    }
    let mut b = to;
    while b > a && white_space(cs[b - 1])
        invariant
            from <= a <= b <= to <= cs.len(),
            strip_back(cs@.subrange(a as int, to as int)) == strip_back(cs@.subrange(a as int, b as int)),
        decreases b - a,
    {
        proof {
            assert(cs@.subrange(a as int, b as int).drop_last() =~= cs@.subrange(a as int, b - 1));
        }
        b = b - 1;
    }
    (a, b)
}

/// The pieces of `text` between commas, each without leading and trailing
/// white space.
pub fn split_trimmed(text: &str) -> (r: Vec<String>)
    ensures
        r@.map_values(|p: String| p@) == comma_pieces(text@).map_values(|p: Seq<char>| trimmed(p)),
{
    let cs = chars_of(text);
    let mut r: Vec<String> = Vec::new();
    let mut start: usize = 0;
    proof {
        assert(cs@.take(0) =~= Seq::<char>::empty());
        assert(cs@.subrange(0, 0) =~= Seq::<char>::empty());
    }
    for i in 0..cs.len()
        invariant
            cs@ == text@,
            start <= i,
            comma_pieces(cs@.take(i as int)).len() == r@.len() + 1,
            comma_pieces(cs@.take(i as int)).last() == cs@.subrange(start as int, i as int),
            r@.map_values(|p: String| p@) == comma_pieces(cs@.take(i as int)).drop_last().map_values(
                |p: Seq<char>| trimmed(p),
            ),
    {
        let ghost before = comma_pieces(cs@.take(i as int));
        proof {
            assert(cs@.take(i + 1).drop_last() =~= cs@.take(i as int));
            assert(cs@.take(i + 1).last() == cs@[i as int]);
        }
        if cs[i] == ',' {
            let (a, b) = trim_bounds(&cs, start, i);
            let piece = text.substring_char(a, b);
            let ghost prev = r@;
            r.push(String::from_str(piece));
            start = i + 1;
            proof {
                assert(comma_pieces(cs@.take(i + 1)) == before.push(Seq::<char>::empty()));
                assert(comma_pieces(cs@.take(i + 1)).drop_last() =~= before);
                assert(r@.map_values(|p: String| p@) =~= prev.map_values(|p: String| p@).push(piece@));
                assert(before =~= before.drop_last().push(before.last()));
                assert(r@.map_values(|p: String| p@) =~= comma_pieces(cs@.take(i + 1)).drop_last().map_values(
                    |p: Seq<char>| trimmed(p),
                ));
                assert(cs@.subrange(start as int, i + 1) =~= Seq::<char>::empty());
            }
        } else {
            proof {
                assert(cs@.subrange(start as int, i + 1) =~= cs@.subrange(start as int, i as int).push(cs@[i as int]));
                assert(comma_pieces(cs@.take(i + 1)).drop_last() =~= before.drop_last());
            }
        }
    }
    proof {
        assert(cs@.take(cs@.len() as int) =~= cs@);
    }
    let (a, b) = trim_bounds(&cs, start, cs.len());
    let piece = text.substring_char(a, b);
    let ghost prev = r@;
    r.push(String::from_str(piece));
    proof {
        let pieces = comma_pieces(text@);
        lemma_comma_pieces_nonempty(text@);
        assert(r@.map_values(|p: String| p@) =~= prev.map_values(|p: String| p@).push(piece@));
        assert(pieces =~= pieces.drop_last().push(pieces.last()));
        assert(r@.map_values(|p: String| p@) =~= pieces.map_values(|p: Seq<char>| trimmed(p)));
    }
    r
}

/// Whether two texts are the same.
pub fn same_text(a: &str, b: &str) -> (r: bool)
    ensures
        r == (a@ == b@),
{
    let ca = chars_of(a);
    let cb = chars_of(b);
    if ca.len() != cb.len() {
        return false;
    }
    let mut i: usize = 0;
    while i < ca.len()
        invariant
            ca@ == a@,
            cb@ == b@,
            ca.len() == cb.len(),
            i <= ca.len(),
            forall|j: int| 0 <= j < i ==> ca@[j] == cb@[j],
        decreases ca.len() - i,
    {
        if ca[i] != cb[i] {
            return false;
        }
        i = i + 1;
    }
    proof {
        assert(a@ =~= b@);
    }
    true
}

/// The value of a string of decimal digits.
pub open spec fn digits_value(ds: Seq<char>) -> int
    decreases ds.len(),
{
    if ds.len() == 0 {
        0
    } else {
        digits_value(ds.drop_last()) * 10 + (ds.last() as int - '0' as int)
    }
}

/// Whether every character of `ds` is an ASCII digit.
pub open spec fn all_digits(ds: Seq<char>) -> bool {
    forall|i: int| 0 <= i < ds.len() ==> '0' <= #[trigger] ds[i] <= '9'
}

/// What `str::parse::<usize>` gives: an optional `+`, then at least one
/// ASCII digit and nothing else, for a value that fits in `usize`.
pub open spec fn parse_usize_spec(s: Seq<char>) -> Option<usize> {
    let body = if s.len() > 0 && s[0] == '+' {
        s.drop_first()
    } else {
        s
    };
    if body.len() == 0 || !all_digits(body) || digits_value(body) > usize::MAX {
        None
    } else {
        Some(digits_value(body) as usize)
    }
}

pub proof fn lemma_digits_value_nonneg(ds: Seq<char>)
    requires
        all_digits(ds),
    ensures
        digits_value(ds) >= 0,
    decreases ds.len(),
{
    if ds.len() > 0 {
        assert(all_digits(ds.drop_last())) by {
            assert forall|i: int| 0 <= i < ds.drop_last().len() implies '0' <= #[trigger] ds.drop_last()[i] <= '9' by {
                assert(ds.drop_last()[i] == ds[i]);
            }
        }
        lemma_digits_value_nonneg(ds.drop_last());
        assert('0' <= ds[ds.len() - 1] <= '9');
    }
}

/// Parses `text` as `str::parse::<usize>` does.
pub fn parse_usize(text: &str) -> (r: Option<usize>)
    ensures
        r == parse_usize_spec(text@),
{
    let cs = chars_of(text);
    let mut i: usize = 0;
    if cs.len() > 0 && cs[0] == '+' {
        i = 1;
    }
    let ghost body = cs@.subrange(i as int, cs@.len() as int);
    proof {
        if cs.len() > 0 && cs@[0] == '+' {
            assert(body =~= text@.drop_first());
        } else {
            assert(body =~= text@);
        }
    }
    if i == cs.len() {
        return None;
    }
    let start = i;
    let mut value: usize = 0;
    let mut overflow = false;
    proof {
        assert(cs@.subrange(start as int, start as int) =~= Seq::<char>::empty());
    }
    while i < cs.len()
        invariant
            cs@ == text@,
            start <= i <= cs.len(),
            body == cs@.subrange(start as int, cs@.len() as int),
            body == (if text@.len() > 0 && text@[0] == '+' {
                text@.drop_first()
            } else {
                text@
            }),
            all_digits(cs@.subrange(start as int, i as int)),
            !overflow ==> value == digits_value(cs@.subrange(start as int, i as int)),
            overflow ==> digits_value(cs@.subrange(start as int, i as int)) > usize::MAX,
        decreases cs.len() - i,
    {
        let c = cs[i];
        if !('0' <= c && c <= '9') {
            proof {
                assert(body[i - start] == c);
            }
            return None;
        }
        let d = (c as u32 - '0' as u32) as usize;
        let ghost prefix = cs@.subrange(start as int, i as int);
        proof {
            assert(cs@.subrange(start as int, i + 1) =~= prefix.push(c));
            assert(cs@.subrange(start as int, i + 1).drop_last() =~= prefix);
            lemma_digits_value_nonneg(prefix);
        }
        if !overflow {
            match value.checked_mul(10) {
                Some(v10) => match v10.checked_add(d) {
                    Some(v) => {
                        value = v;
                    },
                    None => {
                        overflow = true;
                    },
                },
                None => {
                    overflow = true;
                    proof {
                        assert(digits_value(prefix) * 10 > usize::MAX);
                    }
                },
            }
        } else {
            proof {
                assert(digits_value(prefix) * 10 >= digits_value(prefix)) by (nonlinear_arith)
                    requires
                        digits_value(prefix) >= 0,
                ;
            }
        }
        i = i + 1;
    }
    proof {
        assert(cs@.subrange(start as int, i as int) == body);
    }
    if overflow {
        None
    } else {
        Some(value)
    }
}

} // verus!
