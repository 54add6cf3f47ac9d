//! The wire encoding of a message body: a JSON array of three elements —
//! the positional arguments, the keyword arguments, and an options object.
//! The encoder writes the canonical form; the decoder also tolerates
//! insignificant whitespace and a non-empty options object, and decoding an
//! encoded body provably yields the original parameters.
use vstd::prelude::*;
use crate::protocol::BodyView;
use crate::protocol::Kwarg;
use crate::protocol::MessageBody;

verus! {

pub const LBRACK: u8 = 91;

pub const RBRACK: u8 = 93;

pub const LBRACE: u8 = 123;

pub const RBRACE: u8 = 125;

pub const COMMA: u8 = 44;

pub const QUOTE: u8 = 34;

pub const COLON: u8 = 58;

pub const ZERO: u8 = 48;

pub open spec fn is_digit(b: u8) -> bool {
    48 <= b <= 57
}

/// Bytes allowed in a keyword-argument key: ASCII letters, digits,
/// underscore and hyphen.
pub open spec fn is_key_byte(b: u8) -> bool {
    (97 <= b <= 122) || (65 <= b <= 90) || is_digit(b) || b == 95 || b == 45
}

/// A keyword key is a nonempty run of key bytes.
pub open spec fn wf_key(k: Seq<u8>) -> bool {
    k.len() >= 1 && (forall|j: int| 0 <= j < k.len() ==> is_key_byte(#[trigger] k[j]))
}

/// Every key of the body is well formed.
pub open spec fn wf_body_view(b: BodyView) -> bool {
    forall|j: int| 0 <= j < b.kwargs.len() ==> wf_key((#[trigger] b.kwargs[j]).0)
}

/// The canonical decimal digits of a number, most significant first.
pub open spec fn dec_rep(n: nat) -> Seq<u8>
    decreases n,
{
    if n < 10 {
        seq![(48 + n) as u8]
    } else {
        dec_rep(n / 10).push((48 + n % 10) as u8)
    }
}

/// The value of a run of decimal digits.
pub open spec fn digits_val(ds: Seq<u8>) -> nat
    decreases ds.len(),
{
    if ds.len() == 0 {
        0nat
    } else {
        digits_val(ds.drop_last()) * 10 + (ds.last() - 48) as nat
    }
}

/// The encoded positional arguments after the first: a comma before each.
pub open spec fn enc_args_rest(args: Seq<u64>) -> Seq<u8>
    decreases args.len(),
{
    if args.len() == 0 {
        Seq::<u8>::empty()
    } else {
        seq![COMMA] + dec_rep(args[0] as nat) + enc_args_rest(args.drop_first())
    }
}

/// The encoded positional arguments: a JSON array of numbers.
pub open spec fn enc_args(args: Seq<u64>) -> Seq<u8> {
    if args.len() == 0 {
        seq![LBRACK, RBRACK]
    } else {
        seq![LBRACK] + dec_rep(args[0] as nat) + enc_args_rest(args.drop_first()) + seq![RBRACK]
    }
}

/// One encoded keyword argument: a quoted key, a colon, and the value.
pub open spec fn enc_pair(k: Seq<u8>, v: u64) -> Seq<u8> {
    seq![QUOTE] + k + seq![QUOTE, COLON] + dec_rep(v as nat)
}

/// The encoded keyword arguments after the first: a comma before each.
pub open spec fn enc_kwargs_rest(kws: Seq<(Seq<u8>, u64)>) -> Seq<u8>
    decreases kws.len(),
{
    if kws.len() == 0 {
        Seq::<u8>::empty()
    } else {
        seq![COMMA] + enc_pair(kws[0].0, kws[0].1) + enc_kwargs_rest(kws.drop_first())
    }
}

/// The encoded keyword arguments: a JSON object.
pub open spec fn enc_kwargs(kws: Seq<(Seq<u8>, u64)>) -> Seq<u8> {
    if kws.len() == 0 {
        seq![LBRACE, RBRACE]
    } else {
        seq![LBRACE] + enc_pair(kws[0].0, kws[0].1) + enc_kwargs_rest(kws.drop_first()) + seq![
            RBRACE,
        ]
    }
}

/// The encoded body: `[args, kwargs, {}]` in canonical form.
pub open spec fn encode_body_spec(b: BodyView) -> Seq<u8> {
    seq![LBRACK] + enc_args(b.args) + seq![COMMA] + enc_kwargs(b.kwargs) + seq![
        COMMA,
        LBRACE,
        RBRACE,
        RBRACK,
    ]
}

/// The end of the run of digits starting at `i`.
pub open spec fn take_digits(s: Seq<u8>, i: int) -> int
    decreases s.len() - i,
{
    if i < 0 || i >= s.len() {
        i
    } else if is_digit(s[i]) {
        take_digits(s, i + 1)
    } else {
        i
    }
}

/// The end of the run of key bytes starting at `i`.
pub open spec fn take_key(s: Seq<u8>, i: int) -> int
    decreases s.len() - i,
{
    if i < 0 || i >= s.len() {
        i
    } else if is_key_byte(s[i]) {
        take_key(s, i + 1)
    } else {
        i
    }
}

/// Insignificant whitespace between tokens: space, tab, line feed,
/// carriage return.
pub open spec fn is_ws(b: u8) -> bool {
    b == 32 || b == 9 || b == 10 || b == 13
}

/// The position of the first non-whitespace byte at or after `i`.
pub open spec fn skip_ws(s: Seq<u8>, i: int) -> int
    decreases s.len() - i,
{
    if i < 0 || i >= s.len() {
        i
    } else if is_ws(s[i]) {
        skip_ws(s, i + 1)
    } else {
        i
    }
}

/// Parse a number at `i`, after insignificant whitespace: at least one
/// digit, no leading zero, and a value that fits the machine word.
pub open spec fn parse_num_spec(s: Seq<u8>, i: int) -> Option<(u64, int)> {
    if i < 0 || i > s.len() {
        None
    } else {
        let a = skip_ws(s, i);
        let e = take_digits(s, a);
        if e == a {
            None
        } else if s[a] == ZERO && e > a + 1 {
            None
        } else {
            let v = digits_val(s.subrange(a, e));
            if v > u64::MAX {
                None
            } else {
                Some((v as u64, e))
            }
        }
    }
}

/// Parse the remaining elements of an argument array after `acc`.
pub open spec fn parse_args_rest_spec(s: Seq<u8>, i: int, acc: Seq<u64>) -> Option<
    (Seq<u64>, int),
>
    decreases s.len() - i,
{
    if i < 0 {
        None
    } else {
        let c = skip_ws(s, i);
        if c >= s.len() {
            None
        } else if s[c] == RBRACK {
            Some((acc, c + 1))
        } else if s[c] == COMMA {
            match parse_num_spec(s, c + 1) {
                Some((v, j)) => if i < j && j <= s.len() {
                    parse_args_rest_spec(s, j, acc.push(v))
                } else {
                    None
                },
                None => None,
            }
        } else {
            None
        }
    }
}

/// Parse an argument array at `i`.
pub open spec fn parse_args_spec(s: Seq<u8>, i: int) -> Option<(Seq<u64>, int)> {
    if i < 0 {
        None
    } else {
        let a = skip_ws(s, i);
        if a >= s.len() || s[a] != LBRACK {
            None
        } else {
            let b = skip_ws(s, a + 1);
            if b < s.len() && s[b] == RBRACK {
                Some((Seq::<u64>::empty(), b + 1))
            } else {
                match parse_num_spec(s, a + 1) {
                    Some((v, j)) => if j <= s.len() {
                        parse_args_rest_spec(s, j, seq![v])
                    } else {
                        None
                    },
                    None => None,
                }
            }
        }
    }
}

/// Parse one quoted key and its value at `i`.
pub open spec fn parse_pair_spec(s: Seq<u8>, i: int) -> Option<((Seq<u8>, u64), int)> {
    if i < 0 {
        None
    } else {
        let a = skip_ws(s, i);
        if a >= s.len() || s[a] != QUOTE {
            None
        } else {
            let e = take_key(s, a + 1);
            if e == a + 1 {
                None
            } else if e >= s.len() || s[e] != QUOTE {
                None
            } else {
                let c = skip_ws(s, e + 1);
                if c >= s.len() || s[c] != COLON {
                    None
                } else {
                    match parse_num_spec(s, c + 1) {
                        Some((v, j)) => Some(((s.subrange(a + 1, e), v), j)),
                        None => None,
                    }
                }
            }
        }
    }
}

/// Parse the remaining pairs of a keyword object after `acc`.
pub open spec fn parse_kwargs_rest_spec(s: Seq<u8>, i: int, acc: Seq<(Seq<u8>, u64)>) -> Option<
    (Seq<(Seq<u8>, u64)>, int),
>
    decreases s.len() - i,
{
    if i < 0 {
        None
    } else {
        let c = skip_ws(s, i);
        if c >= s.len() {
            None
        } else if s[c] == RBRACE {
            Some((acc, c + 1))
        } else if s[c] == COMMA {
            match parse_pair_spec(s, c + 1) {
                Some((kv, j)) => if i < j && j <= s.len() {
                    parse_kwargs_rest_spec(s, j, acc.push(kv))
                } else {
                    None
                },
                None => None,
            }
        } else {
            None
        }
    }
}

/// Parse a keyword object at `i`.
pub open spec fn parse_kwargs_spec(s: Seq<u8>, i: int) -> Option<(Seq<(Seq<u8>, u64)>, int)> {
    if i < 0 {
        None
    } else {
        let a = skip_ws(s, i);
        if a >= s.len() || s[a] != LBRACE {
            None
        } else {
            let b = skip_ws(s, a + 1);
            if b < s.len() && s[b] == RBRACE {
                Some((Seq::<(Seq<u8>, u64)>::empty(), b + 1))
            } else {
                match parse_pair_spec(s, a + 1) {
                    Some((kv, j)) => if j <= s.len() {
                        parse_kwargs_rest_spec(s, j, seq![kv])
                    } else {
                        None
                    },
                    None => None,
                }
            }
        }
    }
}

/// Parse a whole body, consumed exactly: the three-element array, with
/// insignificant whitespace allowed between tokens. The third element — the
/// ecosystem's options object — is parsed in the same flat form as the
/// keyword arguments and ignored.
pub open spec fn parse_body_spec(s: Seq<u8>) -> Option<BodyView> {
    let a = skip_ws(s, 0);
    if a >= s.len() || s[a] != LBRACK {
        None
    } else {
        match parse_args_spec(s, a + 1) {
            Some((args, i1)) => {
                let c1 = skip_ws(s, i1);
                if c1 < s.len() && s[c1] == COMMA {
                    match parse_kwargs_spec(s, c1 + 1) {
                        Some((kwargs, i2)) => {
                            let c2 = skip_ws(s, i2);
                            if c2 < s.len() && s[c2] == COMMA {
                                match parse_kwargs_spec(s, c2 + 1) {
                                    Some((_, i3)) => {
                                        let c3 = skip_ws(s, i3);
                                        if c3 < s.len() && s[c3] == RBRACK && skip_ws(s, c3 + 1)
                                            == s.len() {
                                            Some(BodyView { args, kwargs })
                                        } else {
                                            None
                                        }
                                    },
                                    None => None,
                                }
                            } else {
                                None
                            }
                        },
                        None => None,
                    }
                } else {
                    None
                }
            },
            None => None,
        }
    }
}


pub proof fn lemma_dec_rep_shape(n: nat)
    ensures
        dec_rep(n).len() >= 1,
        forall|j: int| 0 <= j < dec_rep(n).len() ==> is_digit(#[trigger] dec_rep(n)[j]),
        dec_rep(n)[0] == ZERO ==> n == 0,
        n < 10 ==> dec_rep(n).len() == 1,
    decreases n,
{
    if n >= 10 {
        lemma_dec_rep_shape(n / 10);
        let d = dec_rep(n / 10);
        assert forall|j: int| 0 <= j < dec_rep(n).len() implies is_digit(
            #[trigger] dec_rep(n)[j],
        ) by {
            if j < d.len() {
                assert(dec_rep(n)[j] == d[j]);
            } else {
                assert(dec_rep(n)[j] == (48 + n % 10) as u8);
            }
        }
        assert(dec_rep(n)[0] == d[0]);
    }
}

pub proof fn lemma_digits_val_dec_rep(n: nat)
    ensures
        digits_val(dec_rep(n)) == n,
    decreases n,
{
    if n < 10 {
        reveal_with_fuel(digits_val, 3);
        assert(dec_rep(n).drop_last() =~= Seq::<u8>::empty());
    } else {
        lemma_digits_val_dec_rep(n / 10);
        assert(dec_rep(n).drop_last() =~= dec_rep(n / 10));
    }
}

pub proof fn lemma_take_digits_bounds(s: Seq<u8>, i: int)
    requires
        0 <= i <= s.len(),
    ensures
        i <= take_digits(s, i) <= s.len(),
        forall|j: int| i <= j < take_digits(s, i) ==> is_digit(#[trigger] s[j]),
    decreases s.len() - i,
{
    if i < s.len() && is_digit(s[i]) {
        lemma_take_digits_bounds(s, i + 1);
    }
}

pub proof fn lemma_take_digits_run(s: Seq<u8>, i: int, l: int)
    requires
        0 <= i,
        0 <= l,
        i + l <= s.len(),
        forall|j: int| i <= j < i + l ==> is_digit(#[trigger] s[j]),
        i + l == s.len() || !is_digit(s[i + l]),
    ensures
        take_digits(s, i) == i + l,
    decreases l,
{
    if l > 0 {
        lemma_take_digits_run(s, i + 1, l - 1);
    }
}

pub proof fn lemma_take_key_bounds(s: Seq<u8>, i: int)
    requires
        0 <= i <= s.len(),
    ensures
        i <= take_key(s, i) <= s.len(),
        forall|j: int| i <= j < take_key(s, i) ==> is_key_byte(#[trigger] s[j]),
    decreases s.len() - i,
{
    if i < s.len() && is_key_byte(s[i]) {
        lemma_take_key_bounds(s, i + 1);
    }
}

pub proof fn lemma_take_key_run(s: Seq<u8>, i: int, l: int)
    requires
        0 <= i,
        0 <= l,
        i + l <= s.len(),
        forall|j: int| i <= j < i + l ==> is_key_byte(#[trigger] s[j]),
        i + l == s.len() || !is_key_byte(s[i + l]),
    ensures
        take_key(s, i) == i + l,
    decreases l,
{
    if l > 0 {
        lemma_take_key_run(s, i + 1, l - 1);
    }
}

pub proof fn lemma_skip_ws_bounds(s: Seq<u8>, i: int)
    requires
        0 <= i <= s.len(),
    ensures
        i <= skip_ws(s, i) <= s.len(),
    decreases s.len() - i,
{
    if i < s.len() && is_ws(s[i]) {
        lemma_skip_ws_bounds(s, i + 1);
    }
}

/// A subrange equality gives the bytes of `s` pointwise.
pub proof fn lemma_seq_eq_index(s: Seq<u8>, a: int, b: int, e: Seq<u8>)
    requires
        0 <= a <= b <= s.len(),
        s.subrange(a, b) == e,
    ensures
        b - a == e.len(),
        forall|j: int| a <= j < b ==> s[j] == e[j - a],
{
    assert forall|j: int| a <= j < b implies s[j] == e[j - a] by {
        assert(s.subrange(a, b)[j - a] == s[j]);
    }
}

/// A subrange equal to a concatenation splits into two subrange equalities.
pub proof fn lemma_eq_concat_parts(s: Seq<u8>, i: int, a: Seq<u8>, b: Seq<u8>)
    requires
        0 <= i,
        i + a.len() + b.len() <= s.len(),
        s.subrange(i, i + a.len() + b.len()) == a + b,
    ensures
        s.subrange(i, i + a.len() as int) == a,
        s.subrange(i + a.len() as int, i + a.len() + b.len()) == b,
{
    let n = a.len() as int;
    let m = b.len() as int;
    lemma_seq_eq_index(s, i, i + n + m, a + b);
    assert forall|t: int| 0 <= t < n implies s.subrange(i, i + n)[t] == a[t] by {
        assert(s.subrange(i, i + n)[t] == s[i + t]);
        assert(s[i + t] == (a + b)[t]);
        assert((a + b)[t] == a[t]);
    }
    assert(s.subrange(i, i + n) =~= a);
    assert forall|t: int| 0 <= t < m implies s.subrange(i + n, i + n + m)[t] == b[t] by {
        assert(s.subrange(i + n, i + n + m)[t] == s[i + n + t]);
        assert(s[i + n + t] == (a + b)[n + t]);
        assert((a + b)[n + t] == b[t]);
    }
    assert(s.subrange(i + n, i + n + m) =~= b);
}

/// A subrange equal to a one-byte sequence gives that byte.
pub proof fn lemma_eq_single(s: Seq<u8>, i: int, x: u8)
    requires
        0 <= i,
        i + 1 <= s.len(),
        s.subrange(i, i + 1) == seq![x],
    ensures
        s[i] == x,
{
    assert(s.subrange(i, i + 1)[0] == s[i]);
}

/// Extending a digit run can only grow its value.
pub proof fn lemma_digits_val_monotone(s: Seq<u8>, i: int, k: int, e: int)
    requires
        0 <= i <= k <= e <= s.len(),
    ensures
        digits_val(s.subrange(i, e)) >= digits_val(s.subrange(i, k)),
    decreases e - k,
{
    if k < e {
        assert(s.subrange(i, e).drop_last() =~= s.subrange(i, e - 1));
        lemma_digits_val_monotone(s, i, k, e - 1);
    }
}

/// A canonical number embedded at `i`, followed by a non-digit or the end,
/// parses to itself.
pub proof fn lemma_parse_num_encoded(s: Seq<u8>, i: int, n: u64)
    requires
        0 <= i,
        i + dec_rep(n as nat).len() <= s.len(),
        s.subrange(i, i + dec_rep(n as nat).len() as int) == dec_rep(n as nat),
        i + dec_rep(n as nat).len() == s.len() || !is_digit(s[i + dec_rep(n as nat).len()]),
    ensures
        parse_num_spec(s, i) == Some((n, i + dec_rep(n as nat).len() as int)),
{
    let d = dec_rep(n as nat);
    let l = d.len() as int;
    lemma_dec_rep_shape(n as nat);
    lemma_seq_eq_index(s, i, i + l, d);
    assert forall|j: int| i <= j < i + l implies is_digit(#[trigger] s[j]) by {
        assert(s[j] == d[j - i]);
        assert(is_digit(d[j - i]));
    }
    lemma_take_digits_run(s, i, l);
    lemma_digits_val_dec_rep(n as nat);
    assert(s[i] == d[0]);
    assert(is_digit(s[i]));
    assert(skip_ws(s, i) == i);
    if s[i] == ZERO {
        assert(n == 0);
    }
}

/// The tail of an encoded argument array, closed by the bracket, parses to
/// the accumulated elements followed by the tail.
pub proof fn lemma_parse_args_rest_encoded(s: Seq<u8>, i: int, tail: Seq<u64>, acc: Seq<u64>)
    requires
        0 <= i,
        i + enc_args_rest(tail).len() + 1 <= s.len(),
        s.subrange(i, i + enc_args_rest(tail).len() + 1) == enc_args_rest(tail) + seq![RBRACK],
    ensures
        parse_args_rest_spec(s, i, acc) == Some(
            (acc + tail, i + enc_args_rest(tail).len() + 1),
        ),
    decreases tail.len(),
{
    let er = enc_args_rest(tail);
    let l = er.len() as int;
    lemma_eq_concat_parts(s, i, er, seq![RBRACK]);
    lemma_eq_single(s, i + l, RBRACK);
    if tail.len() == 0 {
        assert(skip_ws(s, i) == i);
        assert(acc + tail =~= acc);
    } else {
        let t0 = tail[0];
        let d = dec_rep(t0 as nat);
        let dl = d.len() as int;
        let tail2 = tail.drop_first();
        let er2 = enc_args_rest(tail2);
        let l2 = er2.len() as int;
        lemma_dec_rep_shape(t0 as nat);
        assert(er =~= seq![COMMA] + (d + er2));
        lemma_eq_concat_parts(s, i, seq![COMMA], d + er2);
        lemma_eq_single(s, i, COMMA);
        assert(skip_ws(s, i) == i);
        lemma_eq_concat_parts(s, i + 1, d, er2);
        let after = i + 1 + dl;
        if tail2.len() == 0 {
            assert(after == i + l);
            assert(!is_digit(s[after]));
        } else {
            assert(er2 =~= seq![COMMA] + (dec_rep(tail2[0] as nat) + enc_args_rest(
                tail2.drop_first(),
            )));
            lemma_eq_concat_parts(s, after, seq![COMMA], dec_rep(tail2[0] as nat)
                + enc_args_rest(tail2.drop_first()));
            lemma_eq_single(s, after, COMMA);
            assert(!is_digit(s[after]));
        }
        lemma_parse_num_encoded(s, i + 1, t0);
        lemma_seq_eq_index(s, after, after + l2, er2);
        assert forall|t: int| 0 <= t < l2 + 1 implies s.subrange(after, after + l2 + 1)[t] == (
        er2 + seq![RBRACK])[t] by {
            assert(s.subrange(after, after + l2 + 1)[t] == s[after + t]);
            if t < l2 {
                assert(s[after + t] == er2[t]);
            } else {
                assert(after + t == i + l);
            }
        }
        assert(s.subrange(after, after + l2 + 1) =~= er2 + seq![RBRACK]);
        lemma_parse_args_rest_encoded(s, after, tail2, acc.push(t0));
        assert(acc.push(t0) + tail2 =~= acc + tail);
    }
}

/// An encoded argument array embedded at `i` parses to itself.
pub proof fn lemma_parse_args_encoded(s: Seq<u8>, i: int, args: Seq<u64>)
    requires
        0 <= i,
        i + enc_args(args).len() <= s.len(),
        s.subrange(i, i + enc_args(args).len() as int) == enc_args(args),
    ensures
        parse_args_spec(s, i) == Some((args, i + enc_args(args).len() as int)),
{
    let ea = enc_args(args);
    let al = ea.len() as int;
    if args.len() == 0 {
        lemma_seq_eq_index(s, i, i + 2, ea);
        assert(s[i] == ea[0]);
        assert(s[i + 1] == ea[1]);
        assert(s[i] == LBRACK);
        assert(skip_ws(s, i) == i);
        assert(s[i + 1] == RBRACK);
        assert(skip_ws(s, i + 1) == i + 1);
    } else {
        let a0 = args[0];
        let d = dec_rep(a0 as nat);
        let dl = d.len() as int;
        let tail = args.drop_first();
        let er = enc_args_rest(tail);
        let l2 = er.len() as int;
        lemma_dec_rep_shape(a0 as nat);
        assert(ea =~= seq![LBRACK] + (d + (er + seq![RBRACK])));
        lemma_eq_concat_parts(s, i, seq![LBRACK], d + (er + seq![RBRACK]));
        lemma_eq_single(s, i, LBRACK);
        assert(skip_ws(s, i) == i);
        lemma_eq_concat_parts(s, i + 1, d, er + seq![RBRACK]);
        lemma_seq_eq_index(s, i + 1, i + 1 + dl, d);
        assert(s[i + 1] == d[0]);
        assert(is_digit(s[i + 1]));
        assert(skip_ws(s, i + 1) == i + 1);
        assert(s[i + 1] != RBRACK);
        let after = i + 1 + dl;
        lemma_seq_eq_index(s, after, after + l2 + 1, er + seq![RBRACK]);
        if tail.len() == 0 {
            assert(s[after] == (er + seq![RBRACK])[0]);
            assert(s[after] == RBRACK);
            assert(!is_digit(s[after]));
        } else {
            assert(er =~= seq![COMMA] + (dec_rep(tail[0] as nat) + enc_args_rest(
                tail.drop_first(),
            )));
            assert(s[after] == (er + seq![RBRACK])[0]);
            assert((er + seq![RBRACK])[0] == er[0]);
            assert(er[0] == COMMA);
            assert(!is_digit(s[after]));
        }
        lemma_parse_num_encoded(s, i + 1, a0);
        lemma_parse_args_rest_encoded(s, after, tail, seq![a0]);
        assert(seq![a0] + tail =~= args);
    }
}

/// An encoded pair embedded at `i`, followed by a non-digit or the end,
/// parses to itself.
pub proof fn lemma_parse_pair_encoded(s: Seq<u8>, i: int, k: Seq<u8>, v: u64)
    requires
        0 <= i,
        wf_key(k),
        i + enc_pair(k, v).len() <= s.len(),
        s.subrange(i, i + enc_pair(k, v).len() as int) == enc_pair(k, v),
        i + enc_pair(k, v).len() == s.len() || !is_digit(s[i + enc_pair(k, v).len()]),
    ensures
        parse_pair_spec(s, i) == Some(((k, v), i + enc_pair(k, v).len() as int)),
{
    let ep = enc_pair(k, v);
    let kl = k.len() as int;
    let d = dec_rep(v as nat);
    let dl = d.len() as int;
    lemma_dec_rep_shape(v as nat);
    assert(ep =~= seq![QUOTE] + (k + (seq![QUOTE, COLON] + d)));
    lemma_eq_concat_parts(s, i, seq![QUOTE], k + (seq![QUOTE, COLON] + d));
    lemma_eq_single(s, i, QUOTE);
    assert(skip_ws(s, i) == i);
    lemma_eq_concat_parts(s, i + 1, k, seq![QUOTE, COLON] + d);
    let e = i + 1 + kl;
    lemma_eq_concat_parts(s, e, seq![QUOTE, COLON], d);
    lemma_seq_eq_index(s, e, e + 2, seq![QUOTE, COLON]);
    assert(s[e] == QUOTE);
    assert(s[e + 1] == COLON);
    assert(skip_ws(s, e + 1) == e + 1);
    lemma_seq_eq_index(s, i + 1, e, k);
    assert forall|j: int| i + 1 <= j < e implies is_key_byte(#[trigger] s[j]) by {
        assert(s[j] == k[j - i - 1]);
        assert(is_key_byte(k[j - i - 1]));
    }
    assert(!is_key_byte(QUOTE));
    lemma_take_key_run(s, i + 1, kl);
    lemma_parse_num_encoded(s, e + 2, v);
    assert(s.subrange(i + 1, e) == k);
}

/// The tail of an encoded keyword object, closed by the brace, parses to
/// the accumulated pairs followed by the tail.
pub proof fn lemma_parse_kwargs_rest_encoded(
    s: Seq<u8>,
    i: int,
    tail: Seq<(Seq<u8>, u64)>,
    acc: Seq<(Seq<u8>, u64)>,
)
    requires
        0 <= i,
        forall|j: int| 0 <= j < tail.len() ==> wf_key((#[trigger] tail[j]).0),
        i + enc_kwargs_rest(tail).len() + 1 <= s.len(),
        s.subrange(i, i + enc_kwargs_rest(tail).len() + 1) == enc_kwargs_rest(tail) + seq![
            RBRACE,
        ],
    ensures
        parse_kwargs_rest_spec(s, i, acc) == Some(
            (acc + tail, i + enc_kwargs_rest(tail).len() + 1),
        ),
    decreases tail.len(),
{
    let er = enc_kwargs_rest(tail);
    let l = er.len() as int;
    lemma_eq_concat_parts(s, i, er, seq![RBRACE]);
    lemma_eq_single(s, i + l, RBRACE);
    if tail.len() == 0 {
        assert(skip_ws(s, i) == i);
        assert(acc + tail =~= acc);
    } else {
        let k0 = tail[0].0;
        let v0 = tail[0].1;
        let ep = enc_pair(k0, v0);
        let pl = ep.len() as int;
        let tail2 = tail.drop_first();
        let er2 = enc_kwargs_rest(tail2);
        let l2 = er2.len() as int;
        assert(wf_key(k0));
        assert(er =~= seq![COMMA] + (ep + er2));
        lemma_eq_concat_parts(s, i, seq![COMMA], ep + er2);
        lemma_eq_single(s, i, COMMA);
        assert(skip_ws(s, i) == i);
        lemma_eq_concat_parts(s, i + 1, ep, er2);
        let after = i + 1 + pl;
        if tail2.len() == 0 {
            assert(after == i + l);
            assert(!is_digit(s[after]));
        } else {
            assert(er2 =~= seq![COMMA] + (enc_pair(tail2[0].0, tail2[0].1) + enc_kwargs_rest(
                tail2.drop_first(),
            )));
            lemma_eq_concat_parts(s, after, seq![COMMA], enc_pair(tail2[0].0, tail2[0].1)
                + enc_kwargs_rest(tail2.drop_first()));
            lemma_eq_single(s, after, COMMA);
            assert(!is_digit(s[after]));
        }
        lemma_parse_pair_encoded(s, i + 1, k0, v0);
        lemma_seq_eq_index(s, after, after + l2, er2);
        assert forall|t: int| 0 <= t < l2 + 1 implies s.subrange(after, after + l2 + 1)[t] == (
        er2 + seq![RBRACE])[t] by {
            assert(s.subrange(after, after + l2 + 1)[t] == s[after + t]);
            if t < l2 {
                assert(s[after + t] == er2[t]);
            } else {
                assert(after + t == i + l);
            }
        }
        assert(s.subrange(after, after + l2 + 1) =~= er2 + seq![RBRACE]);
        assert forall|j: int| 0 <= j < tail2.len() implies wf_key((#[trigger] tail2[j]).0) by {
            assert(tail2[j] == tail[j + 1]);
        }
        lemma_parse_kwargs_rest_encoded(s, after, tail2, acc.push((k0, v0)));
        assert((k0, v0) == tail[0]);
        assert(acc.push(tail[0]) + tail2 =~= acc + tail);
    }
}

/// An encoded keyword object embedded at `i` parses to itself.
pub proof fn lemma_parse_kwargs_encoded(s: Seq<u8>, i: int, kws: Seq<(Seq<u8>, u64)>)
    requires
        0 <= i,
        forall|j: int| 0 <= j < kws.len() ==> wf_key((#[trigger] kws[j]).0),
        i + enc_kwargs(kws).len() <= s.len(),
        s.subrange(i, i + enc_kwargs(kws).len() as int) == enc_kwargs(kws),
    ensures
        parse_kwargs_spec(s, i) == Some((kws, i + enc_kwargs(kws).len() as int)),
{
    let ek = enc_kwargs(kws);
    if kws.len() == 0 {
        lemma_seq_eq_index(s, i, i + 2, ek);
        assert(s[i] == ek[0]);
        assert(s[i + 1] == ek[1]);
        assert(s[i] == LBRACE);
        assert(skip_ws(s, i) == i);
        assert(s[i + 1] == RBRACE);
        assert(skip_ws(s, i + 1) == i + 1);
    } else {
        let k0 = kws[0].0;
        let v0 = kws[0].1;
        let ep = enc_pair(k0, v0);
        let pl = ep.len() as int;
        let tail = kws.drop_first();
        let er = enc_kwargs_rest(tail);
        let l2 = er.len() as int;
        assert(wf_key(k0));
        assert(ek =~= seq![LBRACE] + (ep + (er + seq![RBRACE])));
        lemma_eq_concat_parts(s, i, seq![LBRACE], ep + (er + seq![RBRACE]));
        lemma_eq_single(s, i, LBRACE);
        assert(skip_ws(s, i) == i);
        lemma_eq_concat_parts(s, i + 1, ep, er + seq![RBRACE]);
        lemma_seq_eq_index(s, i + 1, i + 1 + pl, ep);
        assert(s[i + 1] == ep[0]);
        assert(ep[0] == QUOTE) by {
            assert(ep =~= seq![QUOTE] + (k0 + (seq![QUOTE, COLON] + dec_rep(v0 as nat))));
        }
        assert(skip_ws(s, i + 1) == i + 1);
        assert(s[i + 1] != RBRACE);
        let after = i + 1 + pl;
        lemma_seq_eq_index(s, after, after + l2 + 1, er + seq![RBRACE]);
        if tail.len() == 0 {
            assert(s[after] == (er + seq![RBRACE])[0]);
            assert(s[after] == RBRACE);
            assert(!is_digit(s[after]));
        } else {
            assert(er =~= seq![COMMA] + (enc_pair(tail[0].0, tail[0].1) + enc_kwargs_rest(
                tail.drop_first(),
            )));
            assert(s[after] == (er + seq![RBRACE])[0]);
            assert((er + seq![RBRACE])[0] == er[0]);
            assert(er[0] == COMMA);
            assert(!is_digit(s[after]));
        }
        lemma_parse_pair_encoded(s, i + 1, k0, v0);
        assert forall|j: int| 0 <= j < tail.len() implies wf_key((#[trigger] tail[j]).0) by {
            assert(tail[j] == kws[j + 1]);
        }
        lemma_parse_kwargs_rest_encoded(s, after, tail, seq![(k0, v0)]);
        assert((k0, v0) == kws[0]);
        assert(seq![kws[0]] + tail =~= kws);
    }
}

/// The closing of an encoded body — comma, empty options object, bracket —
/// parses as an empty object and consumes the sequence exactly.
proof fn lemma_body_tail_parses(s: Seq<u8>, i2: int)
    requires
        0 <= i2,
        i2 + 4 == s.len(),
        s[i2] == COMMA,
        s[i2 + 1] == LBRACE,
        s[i2 + 2] == RBRACE,
        s[i2 + 3] == RBRACK,
    ensures
        skip_ws(s, i2) == i2,
        parse_kwargs_spec(s, i2 + 1) == Some((Seq::<(Seq<u8>, u64)>::empty(), i2 + 3)),
        skip_ws(s, i2 + 3) == i2 + 3,
        skip_ws(s, i2 + 4) == s.len(),
{
    assert(s.subrange(i2 + 1, i2 + 3) =~= enc_kwargs(Seq::<(Seq<u8>, u64)>::empty()));
    lemma_parse_kwargs_encoded(s, i2 + 1, Seq::<(Seq<u8>, u64)>::empty());
}

/// Decoding an encoded body yields the original parameters.
#[verifier::rlimit(100)]
#[verifier::spinoff_prover]
pub proof fn lemma_body_round_trip(b: BodyView)
    requires
        wf_body_view(b),
    ensures
        parse_body_spec(encode_body_spec(b)) == Some(b),
{
    let s = encode_body_spec(b);
    let ea = enc_args(b.args);
    let al = ea.len() as int;
    let ek = enc_kwargs(b.kwargs);
    let kl = ek.len() as int;
    let tail = seq![COMMA, LBRACE, RBRACE, RBRACK];
    assert(s =~= seq![LBRACK] + (ea + (seq![COMMA] + (ek + tail))));
    assert(s.subrange(0, s.len() as int) =~= s);
    lemma_eq_concat_parts(s, 0, seq![LBRACK], ea + (seq![COMMA] + (ek + tail)));
    lemma_eq_single(s, 0, LBRACK);
    assert(skip_ws(s, 0) == 0);
    lemma_eq_concat_parts(s, 1, ea, seq![COMMA] + (ek + tail));
    lemma_parse_args_encoded(s, 1, b.args);
    let i1 = 1 + al;
    lemma_eq_concat_parts(s, i1, seq![COMMA], ek + tail);
    lemma_eq_single(s, i1, COMMA);
    assert(skip_ws(s, i1) == i1);
    lemma_eq_concat_parts(s, i1 + 1, ek, tail);
    lemma_parse_kwargs_encoded(s, i1 + 1, b.kwargs);
    let i2 = i1 + 1 + kl;
    lemma_seq_eq_index(s, i2, i2 + 4, tail);
    assert(s[i2] == COMMA);
    assert(s[i2 + 1] == LBRACE);
    assert(s[i2 + 2] == RBRACE);
    assert(s[i2 + 3] == RBRACK);
    assert(i2 + 4 == s.len());
    lemma_body_tail_parses(s, i2);
    assert(parse_body_spec(s) == Some(BodyView { args: b.args, kwargs: b.kwargs }));
    assert(BodyView { args: b.args, kwargs: b.kwargs } == b);
}


/// A parsed pair always carries a well-formed key.
pub proof fn lemma_parse_pair_wf(s: Seq<u8>, i: int)
    requires
        parse_pair_spec(s, i) is Some,
    ensures
        parse_pair_spec(s, i) matches Some(p) ==> wf_key(p.0.0),
{
    assert(0 <= i <= s.len()) by {
        if i > s.len() {
            assert(skip_ws(s, i) == i);
        }
    }
    lemma_skip_ws_bounds(s, i);
    let a = skip_ws(s, i);
    lemma_take_key_bounds(s, a + 1);
    let e = take_key(s, a + 1);
    assert forall|j: int| 0 <= j < e - (a + 1) implies is_key_byte(
        #[trigger] s.subrange(a + 1, e)[j],
    ) by {
        assert(s.subrange(a + 1, e)[j] == s[a + 1 + j]);
    }
}

/// Parsing more pairs preserves well-formed keys.
pub proof fn lemma_parse_kwargs_rest_wf(s: Seq<u8>, i: int, acc: Seq<(Seq<u8>, u64)>)
    requires
        forall|j: int| 0 <= j < acc.len() ==> wf_key((#[trigger] acc[j]).0),
        parse_kwargs_rest_spec(s, i, acc) is Some,
    ensures
        parse_kwargs_rest_spec(s, i, acc) matches Some(p) ==> forall|j: int|
            0 <= j < p.0.len() ==> wf_key((#[trigger] p.0[j]).0),
    decreases s.len() - i,
{
    if i >= 0 {
        let c = skip_ws(s, i);
        if c < s.len() && s[c] != RBRACE && s[c] == COMMA {
            match parse_pair_spec(s, c + 1) {
                Some((kv, j)) => {
                    if i < j && j <= s.len() {
                        lemma_parse_pair_wf(s, c + 1);
                        let acc2 = acc.push(kv);
                        assert forall|t: int| 0 <= t < acc2.len() implies wf_key(
                            (#[trigger] acc2[t]).0,
                        ) by {
                            if t < acc.len() {
                                assert(acc2[t] == acc[t]);
                            } else {
                                assert(acc2[t] == kv);
                            }
                        }
                        lemma_parse_kwargs_rest_wf(s, j, acc2);
                    }
                },
                None => {},
            }
        }
    }
}

/// Every key of a parsed keyword object is well formed.
pub proof fn lemma_parse_kwargs_wf(s: Seq<u8>, i: int)
    requires
        parse_kwargs_spec(s, i) is Some,
    ensures
        parse_kwargs_spec(s, i) matches Some(p) ==> forall|j: int|
            0 <= j < p.0.len() ==> wf_key((#[trigger] p.0[j]).0),
{
    if i >= 0 {
        let a = skip_ws(s, i);
        if a < s.len() && s[a] == LBRACE {
            let b = skip_ws(s, a + 1);
            if !(b < s.len() && s[b] == RBRACE) {
                match parse_pair_spec(s, a + 1) {
                    Some((kv, j)) => {
                        if j <= s.len() {
                            lemma_parse_pair_wf(s, a + 1);
                            assert(seq![kv][0] == kv);
                            lemma_parse_kwargs_rest_wf(s, j, seq![kv]);
                        }
                    },
                    None => {},
                }
            }
        }
    }
}

/// Every body the parser accepts is well formed.
pub proof fn lemma_parse_body_wf(s: Seq<u8>)
    requires
        parse_body_spec(s) is Some,
    ensures
        parse_body_spec(s) matches Some(b) ==> wf_body_view(b),
{
    let a = skip_ws(s, 0);
    if a < s.len() && s[a] == LBRACK {
        match parse_args_spec(s, a + 1) {
            Some((args, i1)) => {
                let c1 = skip_ws(s, i1);
                if c1 < s.len() && s[c1] == COMMA {
                    if parse_kwargs_spec(s, c1 + 1) is Some {
                        lemma_parse_kwargs_wf(s, c1 + 1);
                    }
                }
            },
            None => {},
        }
    }
}

/// Appending one element extends the encoded tail by a comma and its digits.
pub proof fn lemma_enc_args_rest_push(s: Seq<u64>, x: u64)
    ensures
        enc_args_rest(s.push(x)) == enc_args_rest(s) + (seq![COMMA] + dec_rep(x as nat)),
    decreases s.len(),
{
    if s.len() == 0 {
        reveal_with_fuel(enc_args_rest, 3);
        assert(s.push(x).drop_first() =~= Seq::<u64>::empty());
        assert(s.push(x)[0] == x);
        assert(enc_args_rest(s.push(x)) =~= enc_args_rest(s) + (seq![COMMA] + dec_rep(x as nat)));
    } else {
        assert(s.push(x).drop_first() =~= s.drop_first().push(x));
        lemma_enc_args_rest_push(s.drop_first(), x);
        assert(s.push(x)[0] == s[0]);
        assert(enc_args_rest(s.push(x)) =~= enc_args_rest(s) + (seq![COMMA] + dec_rep(x as nat)));
    }
}

/// Appending one pair extends the encoded tail by a comma and its encoding.
pub proof fn lemma_enc_kwargs_rest_push(s: Seq<(Seq<u8>, u64)>, x: (Seq<u8>, u64))
    ensures
        enc_kwargs_rest(s.push(x)) == enc_kwargs_rest(s) + (seq![COMMA] + enc_pair(x.0, x.1)),
    decreases s.len(),
{
    if s.len() == 0 {
        reveal_with_fuel(enc_kwargs_rest, 3);
        assert(s.push(x).drop_first() =~= Seq::<(Seq<u8>, u64)>::empty());
        assert(s.push(x)[0] == x);
        assert(enc_kwargs_rest(s.push(x)) =~= enc_kwargs_rest(s) + (seq![COMMA] + enc_pair(
            x.0,
            x.1,
        )));
    } else {
        assert(s.push(x).drop_first() =~= s.drop_first().push(x));
        lemma_enc_kwargs_rest_push(s.drop_first(), x);
        assert(s.push(x)[0] == s[0]);
        assert(enc_kwargs_rest(s.push(x)) =~= enc_kwargs_rest(s) + (seq![COMMA] + enc_pair(
            x.0,
            x.1,
        )));
    }
}

/// Append the canonical digits of a number.
fn push_dec(n: u64, out: &mut Vec<u8>)
    ensures
        final(out)@ == old(out)@ + dec_rep(n as nat),
    decreases n,
{
    if n < 10 {
        out.push((n as u8) + 48);
        assert(out@ =~= old(out)@ + dec_rep(n as nat));
    } else {
        push_dec(n / 10, out);
        out.push(((n % 10) as u8) + 48);
        assert(out@ =~= old(out)@ + dec_rep(n as nat));
    }
}

/// Append one encoded keyword pair.
fn push_pair(key: &Vec<u8>, v: u64, out: &mut Vec<u8>)
    ensures
        final(out)@ == old(out)@ + enc_pair(key@, v),
{
    out.push(QUOTE);
    let mut t: usize = 0;
    assert(key@.subrange(0, 0) =~= Seq::<u8>::empty());
    while t < key.len()
        invariant
            t <= key.len(),
            out@ == old(out)@ + seq![QUOTE] + key@.subrange(0, t as int),
        decreases key.len() - t,
    {
        out.push(key[t]);
        proof {
            assert(key@.subrange(0, t as int).push(key@[t as int]) =~= key@.subrange(
                0,
                t as int + 1,
            ));
        }
        t = t + 1;
    }
    proof {
        assert(key@.subrange(0, key@.len() as int) =~= key@);
    }
    out.push(QUOTE);
    out.push(COLON);
    push_dec(v, out);
    assert(out@ =~= old(out)@ + enc_pair(key@, v));
}

/// Encode a body to its canonical wire form.
#[verifier::rlimit(100)]
pub fn encode_body(body: &MessageBody) -> (r: Vec<u8>)
    ensures
        r@ == encode_body_spec(body@),
{
    let ghost argsv = body@.args;
    let ghost kwsv = body@.kwargs;
    let mut out: Vec<u8> = Vec::new();
    out.push(LBRACK);
    out.push(LBRACK);
    if body.args.len() > 0 {
        push_dec(body.args[0], &mut out);
        let mut k: usize = 1;
        assert(argsv.subrange(1, 1) =~= Seq::<u64>::empty());
        assert(out@ =~= seq![LBRACK, LBRACK] + dec_rep(argsv[0] as nat) + enc_args_rest(
            argsv.subrange(1, 1),
        ));
        while k < body.args.len()
            invariant
                1 <= k <= argsv.len(),
                argsv == body@.args,
                out@ == seq![LBRACK, LBRACK] + dec_rep(argsv[0] as nat) + enc_args_rest(
                    argsv.subrange(1, k as int),
                ),
            decreases argsv.len() - k,
        {
            out.push(COMMA);
            push_dec(body.args[k], &mut out);
            proof {
                lemma_enc_args_rest_push(argsv.subrange(1, k as int), argsv[k as int]);
                assert(argsv.subrange(1, k as int).push(argsv[k as int]) =~= argsv.subrange(
                    1,
                    k as int + 1,
                ));
                assert(out@ =~= seq![LBRACK, LBRACK] + dec_rep(argsv[0] as nat) + enc_args_rest(
                    argsv.subrange(1, k as int + 1),
                ));
            }
            k = k + 1;
        }
        proof {
            assert(argsv.subrange(1, argsv.len() as int) =~= argsv.drop_first());
        }
    }
    out.push(RBRACK);
    proof {
        assert(out@ =~= seq![LBRACK] + enc_args(argsv));
    }
    let ghost mid1 = out@;
    out.push(COMMA);
    out.push(LBRACE);
    if body.kwargs.len() > 0 {
        let kw0 = &body.kwargs[0];
        push_pair(&kw0.key, kw0.value, &mut out);
        let mut k: usize = 1;
        assert(kwsv.subrange(1, 1) =~= Seq::<(Seq<u8>, u64)>::empty());
        assert(kwsv[0] == (body.kwargs@[0].key@, body.kwargs@[0].value));
        assert(out@ =~= mid1 + seq![COMMA, LBRACE] + enc_pair(kwsv[0].0, kwsv[0].1)
            + enc_kwargs_rest(kwsv.subrange(1, 1)));
        while k < body.kwargs.len()
            invariant
                1 <= k <= kwsv.len(),
                kwsv == body@.kwargs,
                kwsv.len() == body.kwargs@.len(),
                out@ == mid1 + seq![COMMA, LBRACE] + enc_pair(kwsv[0].0, kwsv[0].1)
                    + enc_kwargs_rest(kwsv.subrange(1, k as int)),
            decreases kwsv.len() - k,
        {
            out.push(COMMA);
            let kwk = &body.kwargs[k];
            push_pair(&kwk.key, kwk.value, &mut out);
            proof {
                assert(kwsv[k as int] == (body.kwargs@[k as int].key@, body.kwargs@[k as int].value));
                lemma_enc_kwargs_rest_push(kwsv.subrange(1, k as int), kwsv[k as int]);
                assert(kwsv.subrange(1, k as int).push(kwsv[k as int]) =~= kwsv.subrange(
                    1,
                    k as int + 1,
                ));
                assert(out@ =~= mid1 + seq![COMMA, LBRACE] + enc_pair(kwsv[0].0, kwsv[0].1)
                    + enc_kwargs_rest(kwsv.subrange(1, k as int + 1)));
            }
            k = k + 1;
        }
        proof {
            assert(kwsv.subrange(1, kwsv.len() as int) =~= kwsv.drop_first());
        }
    }
    out.push(RBRACE);
    proof {
        assert(out@ =~= mid1 + seq![COMMA] + enc_kwargs(kwsv));
    }
    out.push(COMMA);
    out.push(LBRACE);
    out.push(RBRACE);
    out.push(RBRACK);
    proof {
        assert(out@ =~= encode_body_spec(body@));
    }
    out
}

/// Find the first non-whitespace byte at or after `i`.
fn scan_ws(s: &Vec<u8>, i: usize) -> (e: usize)
    requires
        i <= s.len(),
    ensures
        i <= e <= s.len(),
        e as int == skip_ws(s@, i as int),
{
    let mut j: usize = i;
    while j < s.len() && (s[j] == 32 || s[j] == 9 || s[j] == 10 || s[j] == 13)
        invariant
            i <= j <= s.len(),
            skip_ws(s@, i as int) == skip_ws(s@, j as int),
        decreases s.len() - j,
    {
        j = j + 1;
    }
    proof {
        lemma_skip_ws_bounds(s@, j as int);
    }
    j
}

/// Find the end of the digit run starting at `i`.
fn scan_digits(s: &Vec<u8>, i: usize) -> (e: usize)
    requires
        i <= s.len(),
    ensures
        i <= e <= s.len(),
        e as int == take_digits(s@, i as int),
{
    let mut j: usize = i;
    while j < s.len() && 48 <= s[j] && s[j] <= 57
        invariant
            i <= j <= s.len(),
            take_digits(s@, i as int) == take_digits(s@, j as int),
        decreases s.len() - j,
    {
        j = j + 1;
    }
    proof {
        lemma_take_digits_bounds(s@, j as int);
    }
    j
}

/// Whether a byte may stand in a keyword key.
fn key_byte(b: u8) -> (r: bool)
    ensures
        r == is_key_byte(b),
{
    (97 <= b && b <= 122) || (65 <= b && b <= 90) || (48 <= b && b <= 57) || b == 95 || b == 45
}

/// Find the end of the key-byte run starting at `i`.
fn scan_key(s: &Vec<u8>, i: usize) -> (e: usize)
    requires
        i <= s.len(),
    ensures
        i <= e <= s.len(),
        e as int == take_key(s@, i as int),
{
    let mut j: usize = i;
    while j < s.len() && key_byte(s[j])
        invariant
            i <= j <= s.len(),
            take_key(s@, i as int) == take_key(s@, j as int),
        decreases s.len() - j,
    {
        j = j + 1;
    }
    proof {
        lemma_take_key_bounds(s@, j as int);
    }
    j
}

/// Parse a canonical number at `i`.
fn parse_num(s: &Vec<u8>, i: usize) -> (r: Option<(u64, usize)>)
    requires
        i <= s.len(),
    ensures
        match r {
            Some(p) => parse_num_spec(s@, i as int) == Some((p.0, p.1 as int)) && i < p.1
                <= s.len(),
            None => parse_num_spec(s@, i as int) is None,
        },
{
    let a = scan_ws(s, i);
    let e = scan_digits(s, a);
    if e == a {
        return None;
    }
    proof {
        lemma_take_digits_bounds(s@, a as int);
    }
    if s[a] == ZERO && e > a + 1 {
        return None;
    }
    let mut v: u128 = 0;
    let mut k: usize = a;
    assert(s@.subrange(a as int, a as int) =~= Seq::<u8>::empty());
    while k < e
        invariant
            i <= s.len(),
            a as int == skip_ws(s@, i as int),
            a <= k <= e <= s.len(),
            e as int == take_digits(s@, a as int),
            forall|j: int| a <= j < e ==> is_digit(#[trigger] s@[j]),
            v == digits_val(s@.subrange(a as int, k as int)),
            v <= u64::MAX as u128,
        decreases e - k,
    {
        let d = s[k] - 48;
        let nv: u128 = v * 10 + (d as u128);
        proof {
            assert(s@.subrange(a as int, k as int + 1).drop_last() =~= s@.subrange(
                a as int,
                k as int,
            ));
        }
        if nv > u64::MAX as u128 {
            proof {
                lemma_digits_val_monotone(s@, a as int, k as int + 1, e as int);
            }
            return None;
        }
        v = nv;
        k = k + 1;
    }
    Some((v as u64, e))
}

/// Parse an argument array at `i`.
fn parse_args(s: &Vec<u8>, i: usize) -> (r: Option<(Vec<u64>, usize)>)
    requires
        i <= s.len(),
    ensures
        match r {
            Some(p) => parse_args_spec(s@, i as int) == Some((p.0@, p.1 as int)) && p.1 <= s.len(),
            None => parse_args_spec(s@, i as int) is None,
        },
{
    let a = scan_ws(s, i);
    if a >= s.len() || s[a] != LBRACK {
        return None;
    }
    let b = scan_ws(s, a + 1);
    if b < s.len() && s[b] == RBRACK {
        let acc: Vec<u64> = Vec::new();
        assert(acc@ =~= Seq::<u64>::empty());
        return Some((acc, b + 1));
    }
    match parse_num(s, a + 1) {
        None => None,
        Some((v, j)) => {
            let mut acc: Vec<u64> = Vec::new();
            acc.push(v);
            assert(acc@ =~= seq![v]);
            let mut pos: usize = j;
            loop
                invariant
                    pos <= s.len(),
                    parse_args_spec(s@, i as int) == parse_args_rest_spec(
                        s@,
                        pos as int,
                        acc@,
                    ),
                decreases s.len() - pos,
            {
                let c = scan_ws(s, pos);
                if c >= s.len() {
                    return None;
                }
                let ch = s[c];
                if ch == RBRACK {
                    return Some((acc, c + 1));
                }
                if ch != COMMA {
                    return None;
                }
                match parse_num(s, c + 1) {
                    None => {
                        return None;
                    },
                    Some((v2, j2)) => {
                        acc.push(v2);
                        pos = j2;
                    },
                }
            }
        },
    }
}

/// The keyword pairs a vector of kwargs stands for.
pub open spec fn kwargs_view(acc: Seq<Kwarg>) -> Seq<(Seq<u8>, u64)> {
    acc.map(|t: int, kw: Kwarg| kw@)
}

/// Parse one quoted key and its value at `i`.
fn parse_pair(s: &Vec<u8>, i: usize) -> (r: Option<(Kwarg, usize)>)
    requires
        i <= s.len(),
    ensures
        match r {
            Some(p) => parse_pair_spec(s@, i as int) == Some(((p.0.key@, p.0.value), p.1 as int))
                && i < p.1 <= s.len(),
            None => parse_pair_spec(s@, i as int) is None,
        },
{
    let a = scan_ws(s, i);
    if a >= s.len() || s[a] != QUOTE {
        return None;
    }
    let e = scan_key(s, a + 1);
    if e == a + 1 {
        return None;
    }
    if e >= s.len() {
        return None;
    }
    if s[e] != QUOTE {
        return None;
    }
    let c = scan_ws(s, e + 1);
    if c >= s.len() {
        return None;
    }
    if s[c] != COLON {
        return None;
    }
    match parse_num(s, c + 1) {
        None => None,
        Some((v, j)) => {
            let mut key: Vec<u8> = Vec::new();
            let mut t: usize = a + 1;
            assert(s@.subrange(a as int + 1, a as int + 1) =~= Seq::<u8>::empty());
            while t < e
                invariant
                    a + 1 <= t <= e <= s.len(),
                    key@ == s@.subrange(a as int + 1, t as int),
                decreases e - t,
            {
                key.push(s[t]);
                proof {
                    assert(s@.subrange(a as int + 1, t as int).push(s@[t as int]) =~= s@.subrange(
                        a as int + 1,
                        t as int + 1,
                    ));
                }
                t = t + 1;
            }
            Some((Kwarg { key, value: v }, j))
        },
    }
}

/// Parse a keyword object at `i`.
fn parse_kwargs(s: &Vec<u8>, i: usize) -> (r: Option<(Vec<Kwarg>, usize)>)
    requires
        i <= s.len(),
    ensures
        match r {
            Some(p) => parse_kwargs_spec(s@, i as int) == Some((kwargs_view(p.0@), p.1 as int))
                && p.1 <= s.len(),
            None => parse_kwargs_spec(s@, i as int) is None,
        },
{
    let a = scan_ws(s, i);
    if a >= s.len() || s[a] != LBRACE {
        return None;
    }
    let b = scan_ws(s, a + 1);
    if b < s.len() && s[b] == RBRACE {
        let acc: Vec<Kwarg> = Vec::new();
        assert(kwargs_view(acc@) =~= Seq::<(Seq<u8>, u64)>::empty());
        return Some((acc, b + 1));
    }
    match parse_pair(s, a + 1) {
        None => None,
        Some((kw, j)) => {
            let ghost kv = (kw.key@, kw.value);
            let mut acc: Vec<Kwarg> = Vec::new();
            acc.push(kw);
            assert(kwargs_view(acc@) =~= seq![kv]);
            let mut pos: usize = j;
            loop
                invariant
                    pos <= s.len(),
                    parse_kwargs_spec(s@, i as int) == parse_kwargs_rest_spec(
                        s@,
                        pos as int,
                        kwargs_view(acc@),
                    ),
                decreases s.len() - pos,
            {
                let c = scan_ws(s, pos);
                if c >= s.len() {
                    return None;
                }
                let ch = s[c];
                if ch == RBRACE {
                    return Some((acc, c + 1));
                }
                if ch != COMMA {
                    return None;
                }
                match parse_pair(s, c + 1) {
                    None => {
                        return None;
                    },
                    Some((kw2, j2)) => {
                        let ghost kv2 = (kw2.key@, kw2.value);
                        let ghost before = kwargs_view(acc@);
                        acc.push(kw2);
                        proof {
                            assert(kwargs_view(acc@) =~= before.push(kv2));
                        }
                        pos = j2;
                    },
                }
            }
        },
    }
}

/// Decode a wire body. The result is exactly what the parser yields: a
/// malformed body decodes to nothing.
pub fn decode_body(bytes: &Vec<u8>) -> (r: Option<MessageBody>)
    ensures
        match r {
            Some(b) => parse_body_spec(bytes@) == Some(b@) && wf_body_view(b@),
            None => parse_body_spec(bytes@) is None,
        },
{
    let a = scan_ws(bytes, 0);
    if a >= bytes.len() || bytes[a] != LBRACK {
        return None;
    }
    let (args, i1) = match parse_args(bytes, a + 1) {
        Some(p) => p,
        None => {
            return None;
        },
    };
    let c1 = scan_ws(bytes, i1);
    if c1 >= bytes.len() || bytes[c1] != COMMA {
        return None;
    }
    let (kwargs, i2) = match parse_kwargs(bytes, c1 + 1) {
        Some(p) => p,
        None => {
            return None;
        },
    };
    let c2 = scan_ws(bytes, i2);
    if c2 >= bytes.len() || bytes[c2] != COMMA {
        return None;
    }
    let i3 = match parse_kwargs(bytes, c2 + 1) {
        Some(p) => p.1,
        None => {
            return None;
        },
    };
    let c3 = scan_ws(bytes, i3);
    if c3 >= bytes.len() || bytes[c3] != RBRACK {
        return None;
    }
    if scan_ws(bytes, c3 + 1) != bytes.len() {
        return None;
    }
    let body = MessageBody { args, kwargs };
    proof {
        assert(body@ == BodyView { args: body.args@, kwargs: kwargs_view(body.kwargs@) });
        lemma_parse_body_wf(bytes@);
    }
    Some(body)
}

} // verus!
