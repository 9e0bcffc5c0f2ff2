//! Score codec: converts between a list of unsigned integers and a
//! whitespace-separated text line, and back.
//!
//! Encoding joins canonical decimal representations with single spaces;
//! decoding splits on single spaces and silently drops any token that is
//! not a plain base-ten number fitting in `u32`.

use vstd::prelude::*;

verus! {

/// True of the ten ASCII decimal digit characters.
pub open spec fn is_digit(c: char) -> bool {
    '0' <= c && c <= '9'
}

/// Numeric value of a digit character.
pub open spec fn digit_val(c: char) -> nat {
    (c as int - '0' as int) as nat
}

/// Digit character for a value below ten.
pub open spec fn digit_char(d: nat) -> char {
    if d == 0 {
        '0'
    } else if d == 1 {
        '1'
    } else if d == 2 {
        '2'
    } else if d == 3 {
        '3'
    } else if d == 4 {
        '4'
    } else if d == 5 {
        '5'
    } else if d == 6 {
        '6'
    } else if d == 7 {
        '7'
    } else if d == 8 {
        '8'
    } else {
        '9'
    }
}

/// Every character of `s` is a decimal digit.
pub open spec fn all_digits(s: Seq<char>) -> bool {
    forall|k: int| 0 <= k < s.len() ==> is_digit(#[trigger] s[k])
}

/// Canonical decimal representation of `n`: no sign, no leading zero
/// (a single `'0'` for zero itself).
pub open spec fn dec_rep(n: nat) -> Seq<char>
    decreases n,
{
    if n < 10 {
        seq![digit_char(n)]
    } else {
        dec_rep(n / 10).push(digit_char(n % 10))
    }
}

/// Value of a digit string read in base ten.
pub open spec fn dec_val(s: Seq<char>) -> nat
    decreases s.len(),
{
    if s.len() == 0 {
        0
    } else {
        dec_val(s.drop_last()) * 10 + digit_val(s.last())
    }
}

/// The canonical decimal representation is a non-empty digit string
/// that reads back to the number it was made from.
pub proof fn lemma_dec_rep(n: nat)
    ensures
        dec_rep(n).len() >= 1,
        all_digits(dec_rep(n)),
        dec_val(dec_rep(n)) == n,
    decreases n,
{
    if n < 10 {
        let s = seq![digit_char(n)];
        assert(s.drop_last() =~= Seq::<char>::empty());
        assert(dec_val(Seq::<char>::empty()) == 0);
        assert(dec_val(s) == digit_val(digit_char(n)));
    } else {
        lemma_dec_rep(n / 10);
        let prefix = dec_rep(n / 10);
        let s = prefix.push(digit_char(n % 10));
        assert(s.drop_last() =~= prefix);
        assert(s.last() == digit_char(n % 10));
        assert(dec_val(s) == (n / 10) * 10 + (n % 10));
        assert((n / 10) * 10 + (n % 10) == n) by {
            vstd::arithmetic::div_mod::lemma_fundamental_div_mod(n as int, 10);
        }
        assert forall|k: int| 0 <= k < s.len() implies is_digit(#[trigger] s[k]) by {
            if k < prefix.len() {
                assert(is_digit(prefix[k]));
            }
        }
    }
}

/// The text a list of values encodes to: decimal representations joined
/// by single spaces; the empty list encodes to the empty string.
pub open spec fn encode_spec(vs: Seq<u32>) -> Seq<char>
    decreases vs.len(),
{
    if vs.len() == 0 {
        Seq::empty()
    } else if vs.len() == 1 {
        dec_rep(vs[0] as nat)
    } else {
        dec_rep(vs[0] as nat) + seq![' '] + encode_spec(vs.drop_first())
    }
}

/// Appending one value to the list appends (after a separating space,
/// unless the list was empty) its decimal representation to the text.
pub proof fn lemma_encode_push(vs: Seq<u32>, v: u32)
    ensures
        vs.len() == 0 ==> encode_spec(vs.push(v)) == dec_rep(v as nat),
        vs.len() >= 1 ==> encode_spec(vs.push(v)) == encode_spec(vs) + seq![' '] + dec_rep(
            v as nat,
        ),
    decreases vs.len(),
{
    let p = vs.push(v);
    if vs.len() == 0 {
        assert(p =~= seq![v]);
        assert(encode_spec(p) == dec_rep(v as nat));
    } else if vs.len() == 1 {
        assert(p.len() == 2);
        assert(p.drop_first() =~= seq![v]);
        assert(encode_spec(p) == dec_rep(p[0] as nat) + seq![' '] + encode_spec(p.drop_first()));
        assert(encode_spec(vs) == dec_rep(vs[0] as nat));
    } else {
        lemma_encode_push(vs.drop_first(), v);
        assert(p.drop_first() =~= vs.drop_first().push(v));
        assert(encode_spec(p) == dec_rep(p[0] as nat) + seq![' '] + encode_spec(p.drop_first()));
        assert(encode_spec(vs) == dec_rep(vs[0] as nat) + seq![' '] + encode_spec(vs.drop_first()));
        assert(dec_rep(vs[0] as nat) + seq![' '] + (encode_spec(vs.drop_first()) + seq![' ']
            + dec_rep(v as nat)) =~= (dec_rep(vs[0] as nat) + seq![' '] + encode_spec(
            vs.drop_first(),
        )) + seq![' '] + dec_rep(v as nat));
    }
}

/// Relies on `String::push`: appends exactly the one character to the string.
#[verifier::external_body]
fn push_char(s: &mut String, c: char)
    ensures
        final(s)@ == old(s)@.push(c),
{
    s.push(c)
}

/// Digit character for a value below ten.
fn digit_to_char(d: u32) -> (c: char)
    requires
        d < 10,
    ensures
        c == digit_char(d as nat),
{
    if d == 0 {
        '0'
    } else if d == 1 {
        '1'
    } else if d == 2 {
        '2'
    } else if d == 3 {
        '3'
    } else if d == 4 {
        '4'
    } else if d == 5 {
        '5'
    } else if d == 6 {
        '6'
    } else if d == 7 {
        '7'
    } else if d == 8 {
        '8'
    } else {
        '9'
    }
}

/// Appends the canonical decimal representation of `n` to `s`.
fn push_decimal(s: &mut String, n: u32)
    ensures
        final(s)@ == old(s)@ + dec_rep(n as nat),
    decreases n,
{
    if n < 10 {
        push_char(s, digit_to_char(n));
        proof {
            assert(old(s)@.push(digit_char(n as nat)) =~= old(s)@ + dec_rep(n as nat));
        }
    } else {
        push_decimal(s, n / 10);
        push_char(s, digit_to_char(n % 10));
        proof {
            assert((old(s)@ + dec_rep(n as nat / 10)).push(digit_char(n as nat % 10)) =~= old(s)@
                + dec_rep(n as nat));
        }
    }
}

/// Index of the first occurrence of `sep` in `s`, or `s.len()` if absent.
pub open spec fn first_index(s: Seq<char>, sep: char) -> int
    decreases s.len(),
{
    if s.len() == 0 {
        0
    } else if s[0] == sep {
        0
    } else {
        1 + first_index(s.drop_first(), sep)
    }
}

/// The first occurrence is a separator position, and nothing before it is one.
pub proof fn lemma_first_index(s: Seq<char>, sep: char)
    ensures
        0 <= first_index(s, sep) <= s.len(),
        first_index(s, sep) < s.len() ==> s[first_index(s, sep)] == sep,
        forall|k: int| 0 <= k < first_index(s, sep) ==> s[k] != sep,
    decreases s.len(),
{
    if s.len() == 0 {
    } else if s[0] == sep {
    } else {
        lemma_first_index(s.drop_first(), sep);
        let fi = first_index(s, sep);
        assert forall|k: int| 0 <= k < fi implies s[k] != sep by {
            if k > 0 {
                assert(s.drop_first()[k - 1] != sep);
            }
        }
        if fi < s.len() {
            assert(s[fi] == s.drop_first()[fi - 1]);
        }
    }
}

/// Splits `s` on every occurrence of `sep`; n separators yield n + 1 pieces.
pub open spec fn split_char(s: Seq<char>, sep: char) -> Seq<Seq<char>>
    decreases s.len(),
{
    if s.len() == 0 {
        seq![Seq::<char>::empty()]
    } else if s[0] == sep {
        seq![Seq::<char>::empty()] + split_char(s.drop_first(), sep)
    } else {
        let rest = split_char(s.drop_first(), sep);
        seq![seq![s[0]] + rest[0]] + rest.drop_first()
    }
}

/// The first piece of a split is the text up to the first separator, and the
/// remaining pieces are the split of the text after it.
pub proof fn lemma_split_peel(s: Seq<char>, sep: char)
    ensures
        first_index(s, sep) == s.len() ==> split_char(s, sep) == seq![s],
        first_index(s, sep) < s.len() ==> split_char(s, sep) == seq![
            s.take(first_index(s, sep)),
        ] + split_char(s.skip(first_index(s, sep) + 1), sep),
    decreases s.len(),
{
    lemma_first_index(s, sep);
    if s.len() == 0 {
        assert(split_char(s, sep) =~~= seq![s]);
    } else if s[0] == sep {
        assert(s.take(0) =~= Seq::<char>::empty());
        assert(s.skip(1) =~= s.drop_first());
    } else {
        lemma_split_peel(s.drop_first(), sep);
        let fi = first_index(s, sep);
        let d = s.drop_first();
        let fir = first_index(d, sep);
        let rest = split_char(d, sep);
        assert(fi == 1 + fir);
        if fir == d.len() {
            assert(rest == seq![d]);
            assert(seq![s[0]] + d =~= s);
            assert(rest.drop_first() =~= Seq::<Seq<char>>::empty());
            assert(split_char(s, sep) =~= seq![s]);
        } else {
            assert(rest == seq![d.take(fir)] + split_char(d.skip(fir + 1), sep));
            assert(rest[0] == d.take(fir));
            assert(seq![s[0]] + d.take(fir) =~= s.take(fi));
            assert(rest.drop_first() =~= split_char(d.skip(fir + 1), sep));
            assert(d.skip(fir + 1) =~= s.skip(fi + 1));
            assert(split_char(s, sep) =~= seq![s.take(fi)] + split_char(s.skip(fi + 1), sep));
        }
    }
}

/// A token parses iff it is a non-empty all-digit string whose value fits in `u32`.
pub open spec fn is_valid_token(t: Seq<char>) -> bool {
    t.len() > 0 && all_digits(t) && dec_val(t) <= u32::MAX
}

/// Values of the tokens that parse, in order; the others are dropped.
pub open spec fn parse_tokens(ts: Seq<Seq<char>>) -> Seq<u32>
    decreases ts.len(),
{
    if ts.len() == 0 {
        Seq::empty()
    } else if is_valid_token(ts[0]) {
        seq![(dec_val(ts[0]) as u32)] + parse_tokens(ts.drop_first())
    } else {
        parse_tokens(ts.drop_first())
    }
}

/// What a line of text decodes to: the line is split on single spaces and
/// every piece that is not a plain base-ten `u32` is silently dropped.
pub open spec fn decode_spec(s: Seq<char>) -> Seq<u32> {
    parse_tokens(split_char(s, ' '))
}

/// Joins the decimal representations of the values with single spaces;
/// an empty slice yields the empty string.
pub fn slice_to_string(slice: &[u32]) -> (r: String)
    ensures
        r@ == encode_spec(slice@),
{
    let mut r = String::new();
    let mut i: usize = 0;
    while i < slice.len()
        invariant
            i <= slice@.len(),
            r@ == encode_spec(slice@.take(i as int)),
        decreases slice@.len() - i,
    {
        if i > 0 {
            push_char(&mut r, ' ');
        }
        push_decimal(&mut r, slice[i]);
        proof {
            lemma_encode_push(slice@.take(i as int), slice@[i as int]);
            assert(slice@.take(i as int).push(slice@[i as int]) =~= slice@.take(i + 1));
            if i > 0 {
                assert(encode_spec(slice@.take(i as int)).push(' ') =~= encode_spec(
                    slice@.take(i as int),
                ) + seq![' ']);
            }
        }
        i = i + 1;
    }
    proof {
        assert(slice@.take(slice@.len() as int) =~= slice@);
    }
    r
}

/// Reading one more digit multiplies the value by ten and adds the digit.
proof fn lemma_dec_val_push(t: Seq<char>, c: char)
    ensures
        dec_val(t.push(c)) == dec_val(t) * 10 + digit_val(c),
{
    assert(t.push(c).drop_last() =~= t);
    assert(t.push(c).last() == c);
}

/// A string extended by one character is all digits iff the string was and
/// the character is one.
proof fn lemma_all_digits_push(t: Seq<char>, c: char)
    ensures
        all_digits(t.push(c)) == (all_digits(t) && is_digit(c)),
{
    let p = t.push(c);
    if all_digits(t) && is_digit(c) {
        assert forall|k: int| 0 <= k < p.len() implies is_digit(#[trigger] p[k]) by {
            if k < t.len() {
                assert(is_digit(t[k]));
            }
        }
    }
    if all_digits(p) {
        assert forall|k: int| 0 <= k < t.len() implies is_digit(#[trigger] t[k]) by {
            assert(is_digit(p[k]));
        }
        assert(is_digit(p[t.len() as int]));
    }
}

/// Splits the line on single spaces, parses each piece as a base-ten `u32`,
/// and keeps the values of the pieces that parse, in order.
pub fn line_to_slice(line: &str) -> (r: Vec<u32>)
    ensures
        r@ == decode_spec(line@),
{
    let len = line.unicode_len();
    let mut r: Vec<u32> = Vec::new();
    let mut i: usize = 0;
    proof {
        assert(line@.skip(0) =~= line@);
        assert(r@ + parse_tokens(split_char(line@, ' ')) =~= parse_tokens(split_char(line@, ' ')));
    }
    loop
        invariant_except_break
            i <= len,
            len == line@.len(),
            decode_spec(line@) == r@ + parse_tokens(split_char(line@.skip(i as int), ' ')),
        ensures
            r@ == decode_spec(line@),
        decreases len - i,
    {
        let mut j = i;
        let mut val: u32 = 0;
        let mut digits_ok = true;
        let mut fits = true;
        let mut stop = false;
        while j < len && !stop
            invariant
                i <= j <= len,
                len == line@.len(),
                forall|k: int| i <= k < j ==> line@[k] != ' ',
                stop ==> j < len && line@[j as int] == ' ',
                digits_ok == all_digits(line@.subrange(i as int, j as int)),
                digits_ok && fits ==> val == dec_val(line@.subrange(i as int, j as int))
                    && dec_val(line@.subrange(i as int, j as int)) <= u32::MAX,
                digits_ok && !fits ==> dec_val(line@.subrange(i as int, j as int)) > u32::MAX,
            decreases len - j, (if stop { 0int } else { 1int }),
        {
            let c = line.get_char(j);
            if c == ' ' {
                stop = true;
            } else {
                let ghost t = line@.subrange(i as int, j as int);
                proof {
                    assert(line@.subrange(i as int, j + 1) =~= t.push(line@[j as int]));
                    lemma_dec_val_push(t, line@[j as int]);
                    lemma_all_digits_push(t, line@[j as int]);
                }
                let c_is_digit = '0' <= c && c <= '9';
                if c_is_digit {
                    let d = (c as u32) - 48;
                    proof {
                        assert(d == digit_val(c));
                    }
                    if digits_ok && fits {
                        let mut next_val: u32 = 0;
                        let mut ok = false;
                        match val.checked_mul(10) {
                            Some(v10) => match v10.checked_add(d) {
                                Some(v) => {
                                    next_val = v;
                                    ok = true;
                                },
                                None => {},
                            },
                            None => {},
                        }
                        if ok {
                            val = next_val;
                        } else {
                            fits = false;
                        }
                    } else if digits_ok && !fits {
                        proof {
                            assert(dec_val(t) * 10 >= dec_val(t)) by (nonlinear_arith);
                        }
                    }
                } else {
                    digits_ok = false;
                }
                j = j + 1;
            }
        }
        // The piece runs from i up to j, which sits on a space or at the end.
        let ghost u = line@.skip(i as int);
        let ghost t = line@.subrange(i as int, j as int);
        proof {
            lemma_first_index(u, ' ');
            lemma_split_peel(u, ' ');
            assert forall|k: int| 0 <= k < j - i implies u[k] != ' ' by {
                assert(line@[i + k] != ' ');
            }
            if (j as int) < len {
                assert(u[j - i] == line@[j as int]);
            }
            assert(first_index(u, ' ') == j - i);
            assert(u.take(j - i) =~= t);
        }
        let valid = j > i && digits_ok && fits;
        proof {
            assert(valid == is_valid_token(t));
        }
        let ghost r0 = r@;
        if valid {
            r.push(val);
            proof {
                assert(r@ =~= r0 + seq![val]);
                assert((dec_val(t) as u32) == val);
            }
        }
        if j == len {
            proof {
                assert(split_char(u, ' ') == seq![t]);
                let e = Seq::<Seq<char>>::empty();
                assert(seq![t].drop_first() =~= e);
                assert(parse_tokens(e) == Seq::<u32>::empty());
                if valid {
                    assert(parse_tokens(seq![t]) == seq![(dec_val(t) as u32)] + parse_tokens(e));
                    assert(parse_tokens(seq![t]) =~= seq![val]);
                    assert(r@ =~= r0 + parse_tokens(split_char(u, ' ')));
                } else {
                    assert(parse_tokens(seq![t]) == parse_tokens(e));
                    assert(r@ + parse_tokens(split_char(u, ' ')) =~= r@);
                }
                assert(r@ =~= decode_spec(line@));
            }
            break;
        }
        proof {
            let rest = split_char(line@.skip(j + 1), ' ');
            assert(u.skip(j - i + 1) =~= line@.skip(j + 1));
            assert(split_char(u, ' ') == seq![t] + rest);
            assert((seq![t] + rest)[0] == t);
            assert((seq![t] + rest).drop_first() =~= rest);
            if valid {
                assert(parse_tokens(seq![t] + rest) == seq![(dec_val(t) as u32)] + parse_tokens(
                    rest,
                ));
                assert(r0 + (seq![val] + parse_tokens(rest)) =~= r@ + parse_tokens(rest));
                assert(r@ + parse_tokens(rest) =~= decode_spec(line@));
            } else {
                assert(parse_tokens(seq![t] + rest) == parse_tokens(rest));
            }
        }
        i = j + 1;
    }
    r
}

/// No decimal digit is a space.
proof fn lemma_digits_sep_free(t: Seq<char>)
    requires
        all_digits(t),
    ensures
        forall|k: int| 0 <= k < t.len() ==> t[k] != ' ',
{
    assert forall|k: int| 0 <= k < t.len() implies t[k] != ' ' by {
        assert(is_digit(t[k]));
    }
}

/// Round-trip law: decoding an encoded list of values gives the list back.
/// The encoding emits no leading or trailing separators, so every piece of
/// the split is one canonical decimal token.
pub proof fn lemma_decode_encode(vs: Seq<u32>)
    ensures
        decode_spec(encode_spec(vs)) == vs,
    decreases vs.len(),
{
    if vs.len() == 0 {
        let ts = seq![Seq::<char>::empty()];
        assert(split_char(Seq::<char>::empty(), ' ') == ts);
        assert(ts.drop_first() =~= Seq::<Seq<char>>::empty());
        assert(parse_tokens(Seq::<Seq<char>>::empty()) == Seq::<u32>::empty());
        assert(decode_spec(encode_spec(vs)) =~= vs);
    } else if vs.len() == 1 {
        let t = dec_rep(vs[0] as nat);
        lemma_dec_rep(vs[0] as nat);
        lemma_digits_sep_free(t);
        lemma_first_index(t, ' ');
        assert(first_index(t, ' ') == t.len());
        lemma_split_peel(t, ' ');
        assert(split_char(t, ' ') == seq![t]);
        assert(is_valid_token(t));
        assert(seq![t].drop_first() =~= Seq::<Seq<char>>::empty());
        assert(parse_tokens(seq![t]) == seq![(dec_val(t) as u32)] + parse_tokens(
            Seq::<Seq<char>>::empty(),
        ));
        assert(parse_tokens(Seq::<Seq<char>>::empty()) == Seq::<u32>::empty());
        assert(seq![(dec_val(t) as u32)] + Seq::<u32>::empty() =~= vs);
        assert(decode_spec(encode_spec(vs)) =~= vs);
    } else {
        lemma_decode_encode(vs.drop_first());
        let t = dec_rep(vs[0] as nat);
        lemma_dec_rep(vs[0] as nat);
        lemma_digits_sep_free(t);
        let e = encode_spec(vs);
        let m = t.len() as int;
        assert(e == t + seq![' '] + encode_spec(vs.drop_first()));
        assert(e[m] == ' ');
        assert forall|k: int| 0 <= k < m implies e[k] != ' ' by {
            assert(e[k] == t[k]);
        }
        lemma_first_index(e, ' ');
        assert(first_index(e, ' ') == m);
        lemma_split_peel(e, ' ');
        assert(e.take(m) =~= t);
        assert(e.skip(m + 1) =~= encode_spec(vs.drop_first()));
        let rest = split_char(encode_spec(vs.drop_first()), ' ');
        assert(split_char(e, ' ') == seq![t] + rest);
        assert((seq![t] + rest)[0] == t);
        assert((seq![t] + rest).drop_first() =~= rest);
        assert(is_valid_token(t));
        assert(parse_tokens(seq![t] + rest) == seq![(dec_val(t) as u32)] + parse_tokens(rest));
        assert(seq![vs[0]] + vs.drop_first() =~= vs);
    }
}

} // verus!
