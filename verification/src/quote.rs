//! Quotes fetched from the price feed, and the parser that reads one out of
//! a feed response body.
//!
//! The feed answers an HTTP GET with a small JSON object mapping currency
//! codes to decimal numbers, for instance `{"BTC":0.045,"USD":1800.5,"EUR":1650.1}`.
//! The accepted shape is: optional whitespace, one object whose members are
//! string keys paired with any JSON value — a number
//! (`-? digits (. digits)? ([eE] [+-]? digits)?`), a string, `true`, `false`,
//! `null`, an array or a nested object — then optional whitespace to the end
//! of the input. Members under keys other than `BTC`, `EUR` and `USD` are
//! ignored whatever their value; when a key repeats, the last member wins.
//! Under a required key only a number counts as numeric, and only one whose
//! value fits the decimal representation bounds; anything else there makes
//! the quote non-numeric. Two leniencies against strict JSON, which the feed
//! never exercises: integer parts may carry leading zeros, and a backslash
//! inside a string escapes any byte.

use vstd::prelude::*;

use crate::decimal::{
    lemma_pow10_30, lemma_pow10_adds, lemma_pow10_monotone, lemma_pow10_positive, pow10,
    pow10_u128, Decimal, NumModel, MAX_DIGITS,
};

verus! {

/// Why a fetch produced no quote.
#[derive(Clone, Copy, Debug, PartialEq, Eq, Structural)]
pub enum FetchError {
    /// The network request itself failed.
    Network,
    /// The feed answered with a non-success HTTP status.
    Status(u16),
    /// The response body does not have the accepted shape.
    Parse,
    /// The body parsed, but one of BTC, EUR, USD is absent.
    MissingField,
    /// The body parsed, but one of BTC, EUR, USD is not a representable number.
    NonNumeric,
}

/// One fetched snapshot of the three prices of the base asset.
#[derive(Clone, Copy, Debug, PartialEq, Eq, Structural)]
pub struct Quote {
    pub usd: Decimal,
    pub eur: Decimal,
    pub btc: Decimal,
}

impl Quote {
    pub open spec fn wf(self) -> bool {
        self.usd.wf() && self.eur.wf() && self.btc.wf()
    }
}

/// The mathematical content of a quote.
pub struct QuoteModel {
    pub usd: NumModel,
    pub eur: NumModel,
    pub btc: NumModel,
}

impl View for Quote {
    type V = QuoteModel;

    open spec fn view(&self) -> QuoteModel {
        QuoteModel { usd: self.usd@, eur: self.eur@, btc: self.btc@ }
    }
}

/// One parsed member value: a representable number, or anything else.
pub enum ValModel {
    Num(NumModel),
    Other,
}

/// A parsed member value as executable data.
#[derive(Clone, Copy, Debug)]
pub enum ParsedVal {
    Num(Decimal),
    Other,
}

impl View for ParsedVal {
    type V = ValModel;

    open spec fn view(&self) -> ValModel {
        match *self {
            ParsedVal::Num(d) => ValModel::Num(d@),
            ParsedVal::Other => ValModel::Other,
        }
    }
}

impl ParsedVal {
    pub open spec fn wf(self) -> bool {
        match self {
            ParsedVal::Num(d) => d.wf(),
            ParsedVal::Other => true,
        }
    }
}

/// Which of the required keys a member name is.
#[derive(Clone, Copy, Debug, PartialEq, Eq, Structural)]
pub enum KeyId {
    Btc,
    Eur,
    Usd,
    Other,
}

/// What the object's members said of each required key.
pub struct FieldsModel {
    pub btc: Option<ValModel>,
    pub eur: Option<ValModel>,
    pub usd: Option<ValModel>,
}

pub open spec fn no_fields() -> FieldsModel {
    FieldsModel { btc: None, eur: None, usd: None }
}

pub open spec fn is_ws(c: u8) -> bool {
    c == 32 || c == 9 || c == 10 || c == 13
}

pub open spec fn is_digit(c: u8) -> bool {
    48 <= c && c <= 57
}

/// The first index at or after `i` that does not hold whitespace.
pub open spec fn skip_ws(s: Seq<u8>, i: nat) -> nat
    decreases s.len() - i,
{
    if i < s.len() && is_ws(s[i as int]) {
        skip_ws(s, i + 1)
    } else {
        i
    }
}

/// The first index at or after `i` that does not hold a digit.
pub open spec fn digits_end(s: Seq<u8>, i: nat) -> nat
    decreases s.len() - i,
{
    if i < s.len() && is_digit(s[i as int]) {
        digits_end(s, i + 1)
    } else {
        i
    }
}

/// The number written by the digits of `s` between `start` and `end`.
pub open spec fn num_val(s: Seq<u8>, start: nat, end: nat) -> nat
    decreases end,
{
    if end <= start {
        0
    } else {
        num_val(s, start, (end - 1) as nat) * 10 + (s[end - 1] - 48) as nat
    }
}

/// The index of the closing quote of a string whose content starts at `i`,
/// if the string is closed. A backslash makes the next byte part of the
/// content, whatever it is.
pub open spec fn string_end(s: Seq<u8>, i: nat) -> Option<nat>
    decreases s.len() - i,
{
    if i >= s.len() {
        None
    } else if s[i as int] == 34 {
        Some(i)
    } else if s[i as int] == 92 {
        if i + 1 < s.len() {
            string_end(s, i + 2)
        } else {
            None
        }
    } else {
        string_end(s, i + 1)
    }
}

/// A number of the feed becomes a `Num` when it fits the decimal
/// representation bounds, and counts as `Other` otherwise.
pub open spec fn mk_val(neg: bool, m: nat, scale: nat) -> ValModel {
    if m < pow10(MAX_DIGITS as nat) && scale <= MAX_DIGITS as nat {
        ValModel::Num(NumModel { neg, mantissa: m, scale })
    } else {
        ValModel::Other
    }
}

/// The value after shifting the decimal point of `m / 10^scale` by the
/// exponent `ev`: a negative or small exponent raises the scale, a larger
/// one folds powers of ten into the mantissa.
pub open spec fn mk_val_exp(neg: bool, m: nat, scale: nat, ev: int) -> ValModel {
    if ev <= scale {
        mk_val(neg, m, (scale - ev) as nat)
    } else {
        mk_val(neg, m * pow10((ev - scale) as nat), 0)
    }
}

/// The optional exponent part of a number whose digits gave `m / 10^scale`:
/// at `pos` either `e`/`E`, an optional sign and digits, or nothing.
pub open spec fn number_tail(s: Seq<u8>, pos: nat, neg: bool, m: nat, scale: nat) -> Option<
    (ValModel, nat),
> {
    if pos < s.len() && (s[pos as int] == 101 || s[pos as int] == 69) {
        let eneg = pos + 1 < s.len() && s[pos as int + 1] == 45;
        let p1: nat = if pos + 1 < s.len() && (s[pos as int + 1] == 45 || s[pos as int + 1]
            == 43) {
            pos + 2
        } else {
            pos + 1
        };
        let e3 = digits_end(s, p1);
        if e3 == p1 {
            None
        } else {
            let ev: int = if eneg {
                -(num_val(s, p1, e3) as int)
            } else {
                num_val(s, p1, e3) as int
            };
            Some((mk_val_exp(neg, m, scale, ev), e3))
        }
    } else {
        Some((mk_val(neg, m, scale), pos))
    }
}

/// Parses a number (`-? digits (. digits)? ([eE] [+-]? digits)?`) starting
/// at `i`: its value and the index just past it.
pub open spec fn parse_number(s: Seq<u8>, i: nat) -> Option<(ValModel, nat)> {
    let has_sign = i < s.len() && s[i as int] == 45;
    let i1: nat = if has_sign {
        i + 1
    } else {
        i
    };
    let e1 = digits_end(s, i1);
    if e1 == i1 {
        None
    } else {
        let intval = num_val(s, i1, e1);
        if e1 < s.len() && s[e1 as int] == 46 {
            let f0 = (e1 + 1) as nat;
            let e2 = digits_end(s, f0);
            if e2 == f0 {
                None
            } else {
                let scale = (e2 - f0) as nat;
                number_tail(s, e2, has_sign, intval * pow10(scale) + num_val(s, f0, e2), scale)
            }
        } else {
            number_tail(s, e1, has_sign, intval, 0)
        }
    }
}

/// The index just past any JSON value starting at `i`: a string, a number,
/// a literal, an array or an object, nested freely. Such a value is only
/// ever skipped, so its content is not kept.
pub open spec fn skip_value(s: Seq<u8>, i: nat) -> Option<nat>
    decreases s.len() - i, 0int,
{
    if i >= s.len() {
        None
    } else if s[i as int] == 34 {
        match string_end(s, i + 1) {
            None => None,
            Some(e) => Some((e + 1) as nat),
        }
    } else if s[i as int] == 91 {
        let j = skip_ws(s, i + 1);
        if j < s.len() && s[j as int] == 93 {
            Some((j + 1) as nat)
        } else if i < j && j <= s.len() {
            skip_elements(s, j)
        } else {
            None
        }
    } else if s[i as int] == 123 {
        let j = skip_ws(s, i + 1);
        if j < s.len() && s[j as int] == 125 {
            Some((j + 1) as nat)
        } else if i < j && j <= s.len() {
            skip_members(s, j)
        } else {
            None
        }
    } else if s[i as int] == 116 {
        if i + 4 <= s.len() && s[i as int + 1] == 114 && s[i as int + 2] == 117 && s[i as int + 3]
            == 101 {
            Some(i + 4)
        } else {
            None
        }
    } else if s[i as int] == 102 {
        if i + 5 <= s.len() && s[i as int + 1] == 97 && s[i as int + 2] == 108 && s[i as int + 3]
            == 115 && s[i as int + 4] == 101 {
            Some(i + 5)
        } else {
            None
        }
    } else if s[i as int] == 110 {
        if i + 4 <= s.len() && s[i as int + 1] == 117 && s[i as int + 2] == 108 && s[i as int + 3]
            == 108 {
            Some(i + 4)
        } else {
            None
        }
    } else {
        match parse_number(s, i) {
            None => None,
            Some((_v, n)) => Some(n),
        }
    }
}

/// The index just past the comma-separated elements of an array and its
/// closing bracket, starting at the first element.
pub open spec fn skip_elements(s: Seq<u8>, i: nat) -> Option<nat>
    decreases s.len() - i, 1int,
{
    match skip_value(s, i) {
        None => None,
        Some(n) => {
            let j = skip_ws(s, n);
            if j < s.len() && s[j as int] == 44 {
                let j2 = skip_ws(s, j + 1);
                if i < j2 && j2 <= s.len() {
                    skip_elements(s, j2)
                } else {
                    None
                }
            } else if j < s.len() && s[j as int] == 93 {
                Some((j + 1) as nat)
            } else {
                None
            }
        },
    }
}

/// The index just past the comma-separated members of a nested object and
/// its closing brace, starting at the first member's key.
pub open spec fn skip_members(s: Seq<u8>, i: nat) -> Option<nat>
    decreases s.len() - i, 1int,
{
    if i < s.len() && s[i as int] == 34 {
        match string_end(s, i + 1) {
            None => None,
            Some(e) => {
                let j = skip_ws(s, e + 1);
                if j < s.len() && s[j as int] == 58 {
                    let j2 = skip_ws(s, j + 1);
                    if i < j2 && j2 <= s.len() {
                        match skip_value(s, j2) {
                            None => None,
                            Some(n) => {
                                let j3 = skip_ws(s, n);
                                if j3 < s.len() && s[j3 as int] == 44 {
                                    let j4 = skip_ws(s, j3 + 1);
                                    if i < j4 && j4 <= s.len() {
                                        skip_members(s, j4)
                                    } else {
                                        None
                                    }
                                } else if j3 < s.len() && s[j3 as int] == 125 {
                                    Some((j3 + 1) as nat)
                                } else {
                                    None
                                }
                            },
                        }
                    } else {
                        None
                    }
                } else {
                    None
                }
            },
        }
    } else {
        None
    }
}

/// Parses a member value: any JSON value, of which only a number is ever
/// numeric.
pub open spec fn parse_value(s: Seq<u8>, i: nat) -> Option<(ValModel, nat)> {
    if i < s.len() && s[i as int] == 34 {
        match string_end(s, i + 1) {
            None => None,
            Some(e) => Some((ValModel::Other, (e + 1) as nat)),
        }
    } else if i < s.len() && (s[i as int] == 91 || s[i as int] == 123 || s[i as int] == 116 || s[
        i as int] == 102 || s[i as int] == 110) {
        match skip_value(s, i) {
            None => None,
            Some(n) => Some((ValModel::Other, n)),
        }
    } else {
        parse_number(s, i)
    }
}

/// Which required key a member name spells.
pub open spec fn key_id(k: Seq<u8>) -> KeyId {
    if k == seq![66u8, 84u8, 67u8] {
        KeyId::Btc
    } else if k == seq![69u8, 85u8, 82u8] {
        KeyId::Eur
    } else if k == seq![85u8, 83u8, 68u8] {
        KeyId::Usd
    } else {
        KeyId::Other
    }
}

/// Parses one member, `"key" : value`, starting at `i`: the key, the value,
/// and the index just past the value.
pub open spec fn parse_pair(s: Seq<u8>, i: nat) -> Option<(KeyId, ValModel, nat)> {
    if i < s.len() && s[i as int] == 34 {
        match string_end(s, i + 1) {
            None => None,
            Some(e) => {
                let kid = key_id(s.subrange(i as int + 1, e as int));
                let j = skip_ws(s, e + 1);
                if j < s.len() && s[j as int] == 58 {
                    let j2 = skip_ws(s, j + 1);
                    match parse_value(s, j2) {
                        None => None,
                        Some((v, n)) => Some((kid, v, n)),
                    }
                } else {
                    None
                }
            },
        }
    } else {
        None
    }
}

/// Stores a member under its key; a repeated key keeps the later member.
pub open spec fn apply_field(f: FieldsModel, k: KeyId, v: ValModel) -> FieldsModel {
    match k {
        KeyId::Btc => FieldsModel { btc: Some(v), eur: f.eur, usd: f.usd },
        KeyId::Eur => FieldsModel { btc: f.btc, eur: Some(v), usd: f.usd },
        KeyId::Usd => FieldsModel { btc: f.btc, eur: f.eur, usd: Some(v) },
        KeyId::Other => f,
    }
}

/// Parses the members of the object, comma-separated, starting at `i`:
/// the gathered fields and the index of the first byte after the members
/// with whitespace already skipped.
pub open spec fn parse_members(s: Seq<u8>, i: nat, f: FieldsModel) -> Option<(FieldsModel, nat)>
    decreases s.len() - i,
{
    match parse_pair(s, i) {
        None => None,
        Some((k, v, n)) => {
            let f2 = apply_field(f, k, v);
            let j = skip_ws(s, n);
            if j < s.len() && s[j as int] == 44 {
                let j2 = skip_ws(s, j + 1);
                if i < j2 && j2 <= s.len() {
                    parse_members(s, j2, f2)
                } else {
                    None
                }
            } else {
                Some((f2, j))
            }
        },
    }
}

/// Parses a whole response body: one object, surrounded by whitespace only.
pub open spec fn parse_quote_spec(s: Seq<u8>) -> Option<FieldsModel> {
    let i0 = skip_ws(s, 0);
    if i0 < s.len() && s[i0 as int] == 123 {
        let i1 = skip_ws(s, i0 + 1);
        if i1 < s.len() && s[i1 as int] == 125 {
            if skip_ws(s, i1 + 1) == s.len() {
                Some(no_fields())
            } else {
                None
            }
        } else {
            match parse_members(s, i1, no_fields()) {
                None => None,
                Some((f, j)) => {
                    if j < s.len() && s[j as int] == 125 && skip_ws(s, j + 1) == s.len() {
                        Some(f)
                    } else {
                        None
                    }
                },
            }
        }
    } else {
        None
    }
}

/// What a response body yields: the three prices, or the error that the body
/// raises. A body that does not have the accepted shape raises `Parse`; one
/// that lacks a required key raises `MissingField`; one whose required key
/// holds no representable number raises `NonNumeric`.
pub open spec fn fetch_spec(s: Seq<u8>) -> Result<QuoteModel, FetchError> {
    match parse_quote_spec(s) {
        None => Err(FetchError::Parse),
        Some(f) => match (f.btc, f.eur, f.usd) {
            (Some(bv), Some(ev), Some(uv)) => match (bv, ev, uv) {
                (ValModel::Num(b), ValModel::Num(e), ValModel::Num(u)) => Ok(
                    QuoteModel { usd: u, eur: e, btc: b },
                ),
                _ => Err(FetchError::NonNumeric),
            },
            _ => Err(FetchError::MissingField),
        },
    }
}

/// The first index at or after `i` that does not hold whitespace.
fn ws_end(s: &[u8], i: usize) -> (j: usize)
    requires
        i <= s@.len(),
    ensures
        j == skip_ws(s@, i as nat),
        i <= j <= s@.len(),
{
    let mut j = i;
    while j < s.len() && (s[j] == 32 || s[j] == 9 || s[j] == 10 || s[j] == 13)
        invariant
            i <= j <= s@.len(),
            skip_ws(s@, i as nat) == skip_ws(s@, j as nat),
        decreases s@.len() - j,
    {
        j = j + 1;
    }
    j
}

/// The first index at or after `i` that does not hold a digit.
fn digits_end_at(s: &[u8], i: usize) -> (j: usize)
    requires
        i <= s@.len(),
    ensures
        j == digits_end(s@, i as nat),
        i <= j <= s@.len(),
{
    let mut j = i;
    while j < s.len() && 48 <= s[j] && s[j] <= 57
        invariant
            i <= j <= s@.len(),
            digits_end(s@, i as nat) == digits_end(s@, j as nat),
        decreases s@.len() - j,
    {
        j = j + 1;
    }
    j
}

/// Every byte before the digit run's end is a digit.
proof fn lemma_digits_run(s: Seq<u8>, i: nat)
    requires
        i <= s.len(),
    ensures
        i <= digits_end(s, i) <= s.len(),
        forall|k: int| i <= k < digits_end(s, i) ==> is_digit(s[k]),
    decreases s.len() - i,
{
    if i < s.len() && is_digit(s[i as int]) {
        lemma_digits_run(s, i + 1);
    }
}

/// The index of the closing quote of a string whose content starts at `i`.
fn find_string_end(s: &[u8], i: usize) -> (r: Option<usize>)
    requires
        i <= s@.len(),
    ensures
        r is Some <==> string_end(s@, i as nat) is Some,
        r matches Some(e) ==> string_end(s@, i as nat) == Some(e as nat) && i <= e < s@.len(),
{
    let mut j = i;
    loop
        invariant
            i <= j <= s@.len(),
            string_end(s@, i as nat) == string_end(s@, j as nat),
        decreases s@.len() - j,
    {
        if j >= s.len() {
            return None;
        }
        let c = s[j];
        if c == 34 {
            return Some(j);
        }
        if c == 92 {
            if j + 1 < s.len() {
                j = j + 2;
            } else {
                return None;
            }
        } else {
            j = j + 1;
        }
    }
}

/// Reads the digits of `s` between `start` and `end` onto `base`, as the
/// number `base * 10^(end-start) + digits`, refusing one that reaches `cap`.
fn scan_digits_value(s: &[u8], start: usize, end: usize, base: u128, cap: u128) -> (r: Option<
    u128,
>)
    requires
        start <= end <= s@.len(),
        (base as u128) < cap,
        (cap as nat) <= pow10(30),
        forall|k: int| start <= k < end ==> is_digit(s@[k]),
    ensures
        ({
            let t = (base as nat) * pow10((end - start) as nat) + num_val(
                s@,
                start as nat,
                end as nat,
            );
            &&& (r matches Some(v) ==> v as nat == t && t < cap as nat)
            &&& (r is None ==> t >= cap as nat)
        }),
{
    let mut acc: u128 = base;
    let mut big = false;
    let mut k = start;
    proof {
        lemma_pow10_30();
        assert(pow10(0) == 1);
        assert(num_val(s@, start as nat, start as nat) == 0);
        assert((base as nat) * 1 == base as nat);
    }
    while k < end
        invariant
            start <= k <= end <= s@.len(),
            forall|t: int| start <= t < end ==> is_digit(s@[t]),
            (cap as nat) <= pow10(30),
            pow10(30) == 1_000_000_000_000_000_000_000_000_000_000,
            !big ==> acc as nat == (base as nat) * pow10((k - start) as nat) + num_val(
                s@,
                start as nat,
                k as nat,
            ) && acc < cap,
            big ==> (base as nat) * pow10((k - start) as nat) + num_val(s@, start as nat, k as nat)
                >= cap as nat,
        decreases end - k,
    {
        let ghost b = base as nat;
        let ghost p = pow10((k - start) as nat);
        let ghost n = num_val(s@, start as nat, k as nat);
        let ghost d = (s@[k as int] - 48) as nat;
        proof {
            assert(is_digit(s@[k as int]));
            assert(pow10(((k + 1 - start)) as nat) == 10 * p);
            assert(num_val(s@, start as nat, (k + 1) as nat) == n * 10 + d);
            assert(b * (10 * p) + (n * 10 + d) == (b * p + n) * 10 + d) by (nonlinear_arith);
        }
        if !big {
            let c = s[k];
            let dnew = acc * 10 + ((c - 48) as u128);
            if dnew >= cap {
                big = true;
            } else {
                acc = dnew;
            }
        } else {
            proof {
                assert((b * p + n) * 10 + d >= b * p + n) by (nonlinear_arith);
            }
        }
        k = k + 1;
    }
    if big {
        None
    } else {
        Some(acc)
    }
}

/// Applies the optional exponent at `pos` to digits that gave the value
/// `m_spec / 10^sc`, as `number_tail` describes. `m_part` carries that value
/// where it fits the representation bound `10^30`, and is `None` where it
/// does not.
fn finish_number(
    s: &[u8],
    pos: usize,
    neg: bool,
    m_part: Option<u128>,
    m_spec: Ghost<nat>,
    sc: usize,
) -> (r: Option<(ParsedVal, usize)>)
    requires
        pos <= s@.len(),
        m_part matches Some(m) ==> m as nat == m_spec@ && m_spec@ < pow10(30),
        m_part is None ==> m_spec@ >= pow10(30),
    ensures
        r is Some <==> number_tail(s@, pos as nat, neg, m_spec@, sc as nat) is Some,
        r matches Some((v, n)) ==> number_tail(s@, pos as nat, neg, m_spec@, sc as nat) == Some(
            (v@, n as nat),
        ) && pos <= n <= s@.len() && v.wf(),
{
    proof {
        lemma_pow10_30();
    }
    if !(pos < s.len() && (s[pos] == 101 || s[pos] == 69)) {
        // No exponent: the digits stand as they are.
        return match m_part {
            None => Some((ParsedVal::Other, pos)),
            Some(m) => {
                if sc > MAX_DIGITS as usize {
                    Some((ParsedVal::Other, pos))
                } else {
                    Some((ParsedVal::Num(Decimal { neg, mantissa: m, scale: sc as u32 }), pos))
                }
            },
        };
    }
    let mut p1 = pos + 1;
    let mut eneg = false;
    if p1 < s.len() && s[p1] == 43 {
        p1 = p1 + 1;
    } else if p1 < s.len() && s[p1] == 45 {
        eneg = true;
        p1 = p1 + 1;
    }
    let e3 = digits_end_at(s, p1);
    if e3 == p1 {
        return None;
    }
    proof {
        lemma_digits_run(s@, p1 as nat);
    }
    // The exponent's magnitude, exact below 10^20; any magnitude at or above
    // that bound shifts the value out of the representation bounds, since no
    // scale reaches it (a slice is no longer than usize::MAX < 10^20).
    let ev_part = scan_digits_value(s, p1, e3, 0, 100_000_000_000_000_000_000u128);
    let ghost nv = num_val(s@, p1 as nat, e3 as nat);
    let ghost ev: int = if eneg {
        -(nv as int)
    } else {
        nv as int
    };
    let val: ParsedVal = match ev_part {
        None => {
            if eneg {
                // scale + nv > MAX_DIGITS: out of bounds whatever the digits.
                ParsedVal::Other
            } else {
                // nv > scale, and the shift nv - sc exceeds MAX_DIGITS.
                proof {
                    let k = (ev - sc) as nat;
                    lemma_pow10_positive(k);
                    if m_spec@ >= 1 {
                        lemma_pow10_monotone(31, k);
                        assert(pow10(31) == 10 * pow10(30));
                        assert(m_spec@ * pow10(k) >= pow10(k)) by (nonlinear_arith)
                            requires
                                m_spec@ >= 1,
                                pow10(k) >= 1,
                        ;
                    } else {
                        assert(m_spec@ * pow10(k) == 0) by (nonlinear_arith)
                            requires
                                m_spec@ == 0,
                        ;
                    }
                }
                match m_part {
                    None => ParsedVal::Other,
                    Some(m) => {
                        if m == 0 {
                            ParsedVal::Num(Decimal { neg, mantissa: 0, scale: 0 })
                        } else {
                            ParsedVal::Other
                        }
                    },
                }
            }
        },
        Some(ev_abs) => {
            if eneg {
                let sum: u128 = (sc as u128) + ev_abs;
                match m_part {
                    None => ParsedVal::Other,
                    Some(m) => {
                        if sum > MAX_DIGITS as u128 {
                            ParsedVal::Other
                        } else {
                            ParsedVal::Num(Decimal { neg, mantissa: m, scale: sum as u32 })
                        }
                    },
                }
            } else if ev_abs <= sc as u128 {
                let sc2: u128 = sc as u128 - ev_abs;
                match m_part {
                    None => ParsedVal::Other,
                    Some(m) => {
                        if sc2 > MAX_DIGITS as u128 {
                            ParsedVal::Other
                        } else {
                            ParsedVal::Num(Decimal { neg, mantissa: m, scale: sc2 as u32 })
                        }
                    },
                }
            } else {
                let k: u128 = ev_abs - sc as u128;
                let ghost kn = (ev - sc) as nat;
                proof {
                    lemma_pow10_positive(kn);
                    assert(m_spec@ >= pow10(30) ==> m_spec@ * pow10(kn) >= m_spec@)
                        by (nonlinear_arith)
                        requires
                            pow10(kn) >= 1,
                    ;
                }
                match m_part {
                    None => ParsedVal::Other,
                    Some(m) => {
                        if m == 0 {
                            proof {
                                assert(m_spec@ * pow10(kn) == 0) by (nonlinear_arith)
                                    requires
                                        m_spec@ == 0,
                                ;
                            }
                            ParsedVal::Num(Decimal { neg, mantissa: 0, scale: 0 })
                        } else if k > MAX_DIGITS as u128 {
                            proof {
                                lemma_pow10_monotone(31, kn);
                                assert(pow10(31) == 10 * pow10(30));
                                assert(m_spec@ * pow10(kn) >= pow10(kn)) by (nonlinear_arith)
                                    requires
                                        m_spec@ >= 1,
                                        pow10(kn) >= 1,
                                ;
                            }
                            ParsedVal::Other
                        } else {
                            let f = pow10_u128(k as u32);
                            let limit = pow10_u128(30 - k as u32);
                            proof {
                                lemma_pow10_adds((30 - k) as nat, kn);
                            }
                            if m >= limit {
                                proof {
                                    assert(m_spec@ * pow10(kn) >= (limit as nat) * pow10(kn))
                                        by (nonlinear_arith)
                                        requires
                                            m_spec@ >= limit as nat,
                                            pow10(kn) >= 0,
                                    ;
                                }
                                ParsedVal::Other
                            } else {
                                proof {
                                    assert(m_spec@ * pow10(kn) < (limit as nat) * pow10(kn))
                                        by (nonlinear_arith)
                                        requires
                                            m_spec@ < limit as nat,
                                            pow10(kn) >= 1,
                                    ;
                                }
                                ParsedVal::Num(Decimal { neg, mantissa: m * f, scale: 0 })
                            }
                        }
                    },
                }
            }
        },
    };
    Some((val, e3))
}

/// Parses a number starting at `i`, as `parse_number` describes.
fn parse_number_at(s: &[u8], i: usize) -> (r: Option<(ParsedVal, usize)>)
    requires
        i <= s@.len(),
    ensures
        r is Some <==> parse_number(s@, i as nat) is Some,
        r matches Some((v, n)) ==> parse_number(s@, i as nat) == Some((v@, n as nat)) && i < n
            <= s@.len() && v.wf(),
{
    proof {
        lemma_pow10_30();
    }
    let mut j = i;
    let mut neg = false;
    if j < s.len() && s[j] == 45 {
        neg = true;
        j = j + 1;
    }
    let e1 = digits_end_at(s, j);
    if e1 == j {
        return None;
    }
    proof {
        lemma_digits_run(s@, j as nat);
    }
    let int_part = scan_digits_value(s, j, e1, 0, 1_000_000_000_000_000_000_000_000_000_000u128);
    if e1 < s.len() && s[e1] == 46 {
        let f0 = e1 + 1;
        let e2 = digits_end_at(s, f0);
        if e2 == f0 {
            return None;
        }
        proof {
            lemma_digits_run(s@, f0 as nat);
        }
        let scale = e2 - f0;
        let ghost m_total = num_val(s@, j as nat, e1 as nat) * pow10(scale as nat) + num_val(
            s@,
            f0 as nat,
            e2 as nat,
        );
        match int_part {
            None => {
                proof {
                    let iv = num_val(s@, j as nat, e1 as nat);
                    lemma_pow10_positive(scale as nat);
                    assert(m_total >= iv) by (nonlinear_arith)
                        requires
                            pow10(scale as nat) >= 1,
                            m_total == iv * pow10(scale as nat) + num_val(
                                s@,
                                f0 as nat,
                                e2 as nat,
                            ),
                    ;
                }
                finish_number(s, e2, neg, None, Ghost(m_total), scale)
            },
            Some(base) => {
                let mv = scan_digits_value(
                    s,
                    f0,
                    e2,
                    base,
                    1_000_000_000_000_000_000_000_000_000_000u128,
                );
                finish_number(s, e2, neg, mv, Ghost(m_total), scale)
            },
        }
    } else {
        finish_number(s, e1, neg, int_part, Ghost(num_val(s@, j as nat, e1 as nat)), 0)
    }
}

/// Skips one JSON value starting at `i`, as `skip_value` describes.
fn skip_value_at(s: &[u8], i: usize) -> (r: Option<usize>)
    requires
        i <= s@.len(),
    ensures
        r is Some <==> skip_value(s@, i as nat) is Some,
        r matches Some(n) ==> skip_value(s@, i as nat) == Some(n as nat) && i < n <= s@.len(),
    decreases s@.len() - i, 0int,
{
    if i >= s.len() {
        return None;
    }
    let c = s[i];
    if c == 34 {
        match find_string_end(s, i + 1) {
            None => None,
            Some(e) => Some(e + 1),
        }
    } else if c == 91 {
        let j = ws_end(s, i + 1);
        if j < s.len() && s[j] == 93 {
            Some(j + 1)
        } else {
            skip_elements_at(s, j)
        }
    } else if c == 123 {
        let j = ws_end(s, i + 1);
        if j < s.len() && s[j] == 125 {
            Some(j + 1)
        } else {
            skip_members_at(s, j)
        }
    } else if c == 116 {
        if s.len() - i >= 4 && s[i + 1] == 114 && s[i + 2] == 117 && s[i + 3] == 101 {
            Some(i + 4)
        } else {
            None
        }
    } else if c == 102 {
        if s.len() - i >= 5 && s[i + 1] == 97 && s[i + 2] == 108 && s[i + 3] == 115 && s[i + 4]
            == 101 {
            Some(i + 5)
        } else {
            None
        }
    } else if c == 110 {
        if s.len() - i >= 4 && s[i + 1] == 117 && s[i + 2] == 108 && s[i + 3] == 108 {
            Some(i + 4)
        } else {
            None
        }
    } else {
        match parse_number_at(s, i) {
            None => None,
            Some((_v, n)) => Some(n),
        }
    }
}

/// Skips an array's elements and closing bracket, as `skip_elements`
/// describes.
fn skip_elements_at(s: &[u8], i: usize) -> (r: Option<usize>)
    requires
        i <= s@.len(),
    ensures
        r is Some <==> skip_elements(s@, i as nat) is Some,
        r matches Some(n) ==> skip_elements(s@, i as nat) == Some(n as nat) && i < n <= s@.len(),
    decreases s@.len() - i, 1int,
{
    match skip_value_at(s, i) {
        None => None,
        Some(n) => {
            let j = ws_end(s, n);
            if j < s.len() && s[j] == 44 {
                let j2 = ws_end(s, j + 1);
                skip_elements_at(s, j2)
            } else if j < s.len() && s[j] == 93 {
                Some(j + 1)
            } else {
                None
            }
        },
    }
}

/// Skips a nested object's members and closing brace, as `skip_members`
/// describes.
fn skip_members_at(s: &[u8], i: usize) -> (r: Option<usize>)
    requires
        i <= s@.len(),
    ensures
        r is Some <==> skip_members(s@, i as nat) is Some,
        r matches Some(n) ==> skip_members(s@, i as nat) == Some(n as nat) && i < n <= s@.len(),
    decreases s@.len() - i, 1int,
{
    if !(i < s.len() && s[i] == 34) {
        return None;
    }
    let e = match find_string_end(s, i + 1) {
        None => {
            return None;
        },
        Some(e) => e,
    };
    let j = ws_end(s, e + 1);
    if !(j < s.len() && s[j] == 58) {
        return None;
    }
    let j2 = ws_end(s, j + 1);
    match skip_value_at(s, j2) {
        None => None,
        Some(n) => {
            let j3 = ws_end(s, n);
            if j3 < s.len() && s[j3] == 44 {
                let j4 = ws_end(s, j3 + 1);
                skip_members_at(s, j4)
            } else if j3 < s.len() && s[j3] == 125 {
                Some(j3 + 1)
            } else {
                None
            }
        },
    }
}

/// Parses a member value starting at `i`, as `parse_value` describes.
fn parse_value_at(s: &[u8], i: usize) -> (r: Option<(ParsedVal, usize)>)
    requires
        i <= s@.len(),
    ensures
        r is Some <==> parse_value(s@, i as nat) is Some,
        r matches Some((v, n)) ==> parse_value(s@, i as nat) == Some((v@, n as nat)) && i < n
            <= s@.len() && v.wf(),
{
    if i < s.len() && s[i] == 34 {
        match find_string_end(s, i + 1) {
            None => None,
            Some(e) => Some((ParsedVal::Other, e + 1)),
        }
    } else if i < s.len() && (s[i] == 91 || s[i] == 123 || s[i] == 116 || s[i] == 102 || s[i]
        == 110) {
        match skip_value_at(s, i) {
            None => None,
            Some(n) => Some((ParsedVal::Other, n)),
        }
    } else {
        parse_number_at(s, i)
    }
}

/// Parses one member starting at `i`, as `parse_pair` describes.
fn parse_pair_at(s: &[u8], i: usize) -> (r: Option<(KeyId, ParsedVal, usize)>)
    requires
        i <= s@.len(),
    ensures
        r is Some <==> parse_pair(s@, i as nat) is Some,
        r matches Some((kid, v, n)) ==> parse_pair(s@, i as nat) == Some((kid, v@, n as nat)) && i
            < n <= s@.len() && v.wf(),
{
    if !(i < s.len() && s[i] == 34) {
        return None;
    }
    let e = match find_string_end(s, i + 1) {
        None => {
            return None;
        },
        Some(e) => e,
    };
    let klen = e - (i + 1);
    let kid: KeyId = if klen == 3 && s[i + 1] == 66 && s[i + 2] == 84 && s[i + 3] == 67 {
        KeyId::Btc
    } else if klen == 3 && s[i + 1] == 69 && s[i + 2] == 85 && s[i + 3] == 82 {
        KeyId::Eur
    } else if klen == 3 && s[i + 1] == 85 && s[i + 2] == 83 && s[i + 3] == 68 {
        KeyId::Usd
    } else {
        KeyId::Other
    };
    proof {
        let k = s@.subrange(i + 1, e as int);
        assert(k.len() == e - (i + 1));
        assert(forall|t: int| 0 <= t < k.len() ==> k[t] == s@[i + 1 + t]);
        if klen == 3 {
            assert(k =~= seq![s@[i + 1], s@[i + 2], s@[i + 3]]);
        }
        assert(kid == key_id(k));
    }
    let j = ws_end(s, e + 1);
    if !(j < s.len() && s[j] == 58) {
        return None;
    }
    let j2 = ws_end(s, j + 1);
    match parse_value_at(s, j2) {
        None => None,
        Some((v, n)) => Some((kid, v, n)),
    }
}

/// The fields gathered while walking the object's members.
struct FieldAcc {
    btc: Option<ParsedVal>,
    eur: Option<ParsedVal>,
    usd: Option<ParsedVal>,
}

pub open spec fn opt_val(o: Option<ParsedVal>) -> Option<ValModel> {
    match o {
        None => None,
        Some(p) => Some(p@),
    }
}

impl View for FieldAcc {
    type V = FieldsModel;

    closed spec fn view(&self) -> FieldsModel {
        FieldsModel { btc: opt_val(self.btc), eur: opt_val(self.eur), usd: opt_val(self.usd) }
    }
}

impl FieldAcc {
    spec fn wf(self) -> bool {
        (self.btc matches Some(v) ==> v.wf()) && (self.eur matches Some(v) ==> v.wf())
            && (self.usd matches Some(v) ==> v.wf())
    }
}

/// Walks the object's members starting at `start`, as `parse_members`
/// describes.
fn parse_members_at(s: &[u8], start: usize) -> (r: Option<(FieldAcc, usize)>)
    requires
        start <= s@.len(),
    ensures
        r is Some <==> parse_members(s@, start as nat, no_fields()) is Some,
        r matches Some((f, j)) ==> parse_members(s@, start as nat, no_fields()) == Some(
            (f@, j as nat),
        ) && j <= s@.len() && f.wf(),
{
    let mut f = FieldAcc { btc: None, eur: None, usd: None };
    let mut i = start;
    proof {
        assert(f@ == no_fields());
    }
    loop
        invariant
            start <= i <= s@.len(),
            f.wf(),
            parse_members(s@, start as nat, no_fields()) == parse_members(s@, i as nat, f@),
        decreases s@.len() - i,
    {
        match parse_pair_at(s, i) {
            None => {
                return None;
            },
            Some((kid, v, n)) => {
                match kid {
                    KeyId::Btc => {
                        f.btc = Some(v);
                    },
                    KeyId::Eur => {
                        f.eur = Some(v);
                    },
                    KeyId::Usd => {
                        f.usd = Some(v);
                    },
                    KeyId::Other => {},
                }
                let j = ws_end(s, n);
                if j < s.len() && s[j] == 44 {
                    let j2 = ws_end(s, j + 1);
                    i = j2;
                } else {
                    return Some((f, j));
                }
            },
        }
    }
}

/// Reads a quote out of a feed response body.
///
/// Succeeds exactly when the body has the accepted shape and each of BTC,
/// EUR and USD is present as a representable number; the quote then holds
/// those three numbers. Otherwise the error says what was wrong: `Parse` for
/// a malformed body, `MissingField` for an absent key, `NonNumeric` for a
/// key whose value is no representable number.
pub fn parse_quote(body: &[u8]) -> (r: Result<Quote, FetchError>)
    ensures
        (r matches Ok(q)) <==> fetch_spec(body@) is Ok,
        r matches Ok(q) ==> fetch_spec(body@) == Ok::<QuoteModel, FetchError>(q@) && q.wf(),
        r matches Err(e) ==> fetch_spec(body@) == Err::<QuoteModel, FetchError>(e),
{
    let i0 = ws_end(body, 0);
    if !(i0 < body.len() && body[i0] == 123) {
        return Err(FetchError::Parse);
    }
    let i1 = ws_end(body, i0 + 1);
    if i1 < body.len() && body[i1] == 125 {
        let end = ws_end(body, i1 + 1);
        if end == body.len() {
            return Err(FetchError::MissingField);
        } else {
            return Err(FetchError::Parse);
        }
    }
    match parse_members_at(body, i1) {
        None => Err(FetchError::Parse),
        Some((f, j)) => {
            if !(j < body.len() && body[j] == 125) {
                return Err(FetchError::Parse);
            }
            let end = ws_end(body, j + 1);
            if end != body.len() {
                return Err(FetchError::Parse);
            }
            match (f.btc, f.eur, f.usd) {
                (Some(bv), Some(ev), Some(uv)) => match (bv, ev, uv) {
                    (ParsedVal::Num(bd), ParsedVal::Num(ed), ParsedVal::Num(ud)) => Ok(
                        Quote { usd: ud, eur: ed, btc: bd },
                    ),
                    _ => Err(FetchError::NonNumeric),
                },
                _ => Err(FetchError::MissingField),
            }
        },
    }
}

} // verus!
