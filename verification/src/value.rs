//! The XPath value model: a four-way union of nodeset, string, number and
//! boolean, with the three total coercions every value supports.

use vstd::prelude::*;

verus! {

use crate::nodeset::{
    Document, Nodeset, node_str, doc_order_seq, set_min, lemma_nodeset_view, ids_of,
};
use crate::num::{
    NAN_BITS, bool_of_bits, is_nan_bits, is_infinite_bits, is_zero_bits, sign_bit, biased_exp,
    is_digit, is_number_body, is_xpath_number, is_integral_bits, trunc_of, bits_of_decimal,
    decimal_str_of, ieee_eq, num_is_nan, num_is_infinite, num_is_zero, num_is_integral, num_sign,
    num_truthy, num_eq, trunc_u64,
};

/// The bit pattern of the double 1.0, the number a true boolean converts to.
pub const ONE_BITS: u64 = 0x3FF0_0000_0000_0000;

/// Spec-level image of a value: a nodeset is the set of its node ids, a
/// number is its bit pattern.
pub enum ValueV {
    Nodeset(Set<int>),
    Str(Seq<char>),
    Num(u64),
    Bool(bool),
}

/// An XPath value.
#[derive(Debug, PartialEq)]
pub enum Value {
    Nodeset(Nodeset),
    String(String),
    Number(u64),
    Boolean(bool),
}

/// The value a literal expression holds.
pub type LiteralValue = Value;

impl View for Value {
    type V = ValueV;

    open spec fn view(&self) -> ValueV {
        match self {
            Value::Nodeset(ns) => ValueV::Nodeset(ns@),
            Value::String(s) => ValueV::Str(s@),
            Value::Number(b) => ValueV::Num(*b),
            Value::Boolean(b) => ValueV::Bool(*b),
        }
    }
}

/// XML whitespace, stripped around numbers.
pub open spec fn is_xml_ws(c: char) -> bool {
    c == ' ' || c == '\t' || c == '\n' || c == '\r'
}

pub open spec fn trim_start_ws(s: Seq<char>) -> Seq<char>
    decreases s.len(),
{
    if s.len() > 0 && is_xml_ws(s[0]) {
        trim_start_ws(s.subrange(1, s.len() as int))
    } else {
        s
    }
}

pub open spec fn trim_end_ws(s: Seq<char>) -> Seq<char>
    decreases s.len(),
{
    if s.len() > 0 && is_xml_ws(s[s.len() - 1]) {
        trim_end_ws(s.subrange(0, s.len() - 1))
    } else {
        s
    }
}

pub open spec fn trim_ws(s: Seq<char>) -> Seq<char> {
    trim_end_ws(trim_start_ws(s))
}

/// The number a string converts to: NaN unless the trimmed text has the
/// shape of an XPath number, else the double that text denotes.
pub open spec fn num_of_str(s: Seq<char>) -> u64 {
    if is_xpath_number(trim_ws(s)) {
        match bits_of_decimal(trim_ws(s)) {
            Some(b) => b,
            None => NAN_BITS,
        }
    } else {
        NAN_BITS
    }
}

/// The character for one decimal digit.
pub open spec fn digit_char(d: nat) -> char
    recommends
        d < 10,
{
    if d == 0 {
        '0'
    } else if d == 1 {
        '1'
    } else if d == 2 {
        '2'
    } else if d == 3 {
        '3'
    } else if d == 4 {
        '4'
    } else if d == 5 {
        '5'
    } else if d == 6 {
        '6'
    } else if d == 7 {
        '7'
    } else if d == 8 {
        '8'
    } else {
        '9'
    }
}

/// The decimal digits of a natural number, most significant first.
pub open spec fn dec_str_of_nat(n: nat) -> Seq<char>
    decreases n,
{
    if n < 10 {
        seq![digit_char(n)]
    } else {
        dec_str_of_nat(n / 10).push(digit_char(n % 10))
    }
}

/// The rendering of a number: NaN and the infinities by name, the zeros as
/// `0` and `-0`, an integer of magnitude below 2^64 as its plain digits
/// without a decimal point. Any other finite value — one with a fractional
/// part, or an integer of magnitude 2^64 and above — is the named
/// `decimal_str_of`, rustc_apfloat's rendering, which turns scientific
/// (as in `1.0E+300`) where the decimal exponent grows, unlike XPath's
/// plain decimal form.
pub open spec fn num_str(b: u64) -> Seq<char> {
    if is_nan_bits(b) {
        "NaN"@
    } else if is_infinite_bits(b) {
        if sign_bit(b) {
            "-Infinity"@
        } else {
            "Infinity"@
        }
    } else if is_zero_bits(b) {
        if sign_bit(b) {
            "-0"@
        } else {
            "0"@
        }
    } else if is_integral_bits(b) && biased_exp(b) < 1087 {
        if sign_bit(b) {
            seq!['-'] + dec_str_of_nat(trunc_of(b))
        } else {
            dec_str_of_nat(trunc_of(b))
        }
    } else {
        decimal_str_of(b)
    }
}

/// The boolean coercion: a nodeset is true iff non-empty, a string iff
/// non-empty, a number iff neither zero nor NaN, a boolean is itself.
pub open spec fn spec_boolean(v: ValueV) -> bool {
    match v {
        ValueV::Nodeset(s) => s.len() != 0,
        ValueV::Str(s) => s.len() > 0,
        ValueV::Num(b) => bool_of_bits(b),
        ValueV::Bool(b) => b,
    }
}

/// The string coercion: a nodeset gives the string-value of its first node
/// in document order (empty if the set is empty), a number its decimal
/// rendering, a boolean its name, a string itself.
pub open spec fn spec_string(v: ValueV, doc: Seq<Seq<char>>) -> Seq<char> {
    match v {
        ValueV::Nodeset(s) => if s.len() == 0 {
            Seq::empty()
        } else {
            node_str(doc, set_min(s))
        },
        ValueV::Str(s) => s,
        ValueV::Num(b) => num_str(b),
        ValueV::Bool(b) => if b {
            "true"@
        } else {
            "false"@
        },
    }
}

/// The number coercion: a string parses (NaN on failure), a boolean gives
/// one or zero, a nodeset goes through its string coercion, a number is
/// itself.
pub open spec fn spec_number(v: ValueV, doc: Seq<Seq<char>>) -> u64 {
    match v {
        ValueV::Num(b) => b,
        ValueV::Bool(b) => if b {
            ONE_BITS
        } else {
            0
        },
        ValueV::Str(s) => num_of_str(s),
        ValueV::Nodeset(_) => num_of_str(spec_string(v, doc)),
    }
}

fn is_ws_char(c: char) -> (r: bool)
    ensures
        r == is_xml_ws(c),
{
    c == ' ' || c == '\t' || c == '\n' || c == '\r'
}

proof fn lemma_trim_start(s: Seq<char>, lo: int)
    requires
        0 <= lo <= s.len(),
        forall|k: int| 0 <= k < lo ==> is_xml_ws(s[k]),
        lo < s.len() ==> !is_xml_ws(s[lo]),
    ensures
        trim_start_ws(s) =~= s.subrange(lo, s.len() as int),
    decreases lo,
{
    if lo == 0 {
        assert(s =~= s.subrange(0, s.len() as int));
    } else {
        assert(is_xml_ws(s[0]));
        let rest = s.subrange(1, s.len() as int);
        lemma_trim_start(rest, lo - 1);
        assert(rest.subrange(lo - 1, rest.len() as int) =~= s.subrange(lo, s.len() as int));
    }
}

proof fn lemma_trim_end(s: Seq<char>, hi: int)
    requires
        0 <= hi <= s.len(),
        forall|k: int| hi <= k < s.len() ==> is_xml_ws(s[k]),
        hi > 0 ==> !is_xml_ws(s[hi - 1]),
    ensures
        trim_end_ws(s) =~= s.subrange(0, hi),
    decreases s.len(),
{
    if hi == s.len() {
        if s.len() > 0 {
            assert(!is_xml_ws(s[s.len() - 1]));
        }
        assert(s =~= s.subrange(0, s.len() as int));
    } else {
        assert(is_xml_ws(s[s.len() - 1]));
        let rest = s.subrange(0, s.len() - 1);
        lemma_trim_end(rest, hi);
        assert(rest.subrange(0, hi) =~= s.subrange(0, hi));
    }
}

/// Strips XML whitespace from both ends.
pub fn trim_str<'a>(s: &'a str) -> (r: &'a str)
    ensures
        r@ == trim_ws(s@),
{
    let len = s.unicode_len();
    let mut lo: usize = 0;
    while lo < len && is_ws_char(s.get_char(lo))
        invariant
            lo <= len,
            len == s@.len(),
            forall|k: int| 0 <= k < lo ==> is_xml_ws(s@[k]),
        decreases len - lo,
    {
        lo += 1;
    }
    let mut hi: usize = len;
    while hi > lo && is_ws_char(s.get_char(hi - 1))
        invariant
            lo <= hi <= len,
            len == s@.len(),
            forall|k: int| hi <= k < len ==> is_xml_ws(s@[k]),
        decreases hi,
    {
        hi -= 1;
    }
    proof {
        lemma_trim_start(s@, lo as int);
        let mid = s@.subrange(lo as int, s@.len() as int);
        assert(forall|k: int| hi - lo <= k < mid.len() ==> is_xml_ws(mid[k]));
        lemma_trim_end(mid, hi - lo);
        assert(mid.subrange(0, hi - lo) =~= s@.subrange(lo as int, hi as int));
    }
    s.substring_char(lo, hi)
}

fn is_digit_char(c: char) -> (r: bool)
    ensures
        r == is_digit(c),
{
    c >= '0' && c <= '9'
}

/// Decides whether a string, as trimmed, has the shape of an XPath number:
/// an optional minus sign, then digits with at most one decimal point.
pub fn is_number_str(s: &str) -> (r: bool)
    ensures
        r == is_xpath_number(s@),
{
    let len = s.unicode_len();
    let start: usize = if len > 0 && s.get_char(0) == '-' {
        1
    } else {
        0
    };
    let ghost body = if start == 1 {
        s@.subrange(1, s@.len() as int)
    } else {
        s@
    };
    proof {
        assert(is_xpath_number(s@) == is_number_body(body));
    }
    let mut saw_digit = false;
    let mut saw_dot = false;
    for i in start..len
        invariant
            start <= i <= len,
            len == s@.len(),
            start == 0 || start == 1,
            (start == 1) <==> (s@.len() > 0 && s@[0] == '-'),
            body == (if start == 1 {
                s@.subrange(1, s@.len() as int)
            } else {
                s@
            }),
            body.len() == len - start,
            forall|k: int| 0 <= k < i - start ==> (is_digit(body[k]) || body[k] == '.'),
            saw_dot <==> exists|k: int| 0 <= k < i - start && body[k] == '.',
            saw_digit <==> exists|k: int| 0 <= k < i - start && is_digit(body[k]),
            forall|k1: int, k2: int|
                0 <= k1 < k2 < i - start && body[k1] == '.' ==> body[k2] != '.',
    {
        let c = s.get_char(i);
        proof {
            assert(body[i - start] == s@[i as int]);
        }
        if is_digit_char(c) {
            saw_digit = true;
        } else if c == '.' && !saw_dot {
            saw_dot = true;
        } else {
            proof {
                if c == '.' {
                    let k1 = choose|k1: int| 0 <= k1 < i - start && body[k1] == '.';
                    assert(body[k1] == '.' && body[i - start] == '.');
                }
                assert(!is_number_body(body));
            }
            return false;
        }
    }
    proof {
        if saw_digit {
            assert(is_number_body(body));
        } else {
            assert(!is_number_body(body));
        }
    }
    saw_digit
}

/// The executable string-to-number conversion: trim, test the number
/// shape, then convert; anything outside the shape is NaN.
pub fn string_to_number(s: &str) -> (r: u64)
    ensures
        r == num_of_str(s@),
{
    let t = trim_str(s);
    if is_number_str(t) {
        match crate::num::parse_double(t) {
            Some(b) => b,
            None => NAN_BITS,
        }
    } else {
        NAN_BITS
    }
}

fn digit_str(d: u64) -> (r: &'static str)
    requires
        d < 10,
    ensures
        r@ == seq![digit_char(d as nat)],
{
    match d {
        0 => {
            proof {
                reveal_strlit("0");
                assert("0"@ =~= seq![digit_char(0)]);
            }
            "0"
        },
        1 => {
            proof {
                reveal_strlit("1");
                assert("1"@ =~= seq![digit_char(1)]);
            }
            "1"
        },
        2 => {
            proof {
                reveal_strlit("2");
                assert("2"@ =~= seq![digit_char(2)]);
            }
            "2"
        },
        3 => {
            proof {
                reveal_strlit("3");
                assert("3"@ =~= seq![digit_char(3)]);
            }
            "3"
        },
        4 => {
            proof {
                reveal_strlit("4");
                assert("4"@ =~= seq![digit_char(4)]);
            }
            "4"
        },
        5 => {
            proof {
                reveal_strlit("5");
                assert("5"@ =~= seq![digit_char(5)]);
            }
            "5"
        },
        6 => {
            proof {
                reveal_strlit("6");
                assert("6"@ =~= seq![digit_char(6)]);
            }
            "6"
        },
        7 => {
            proof {
                reveal_strlit("7");
                assert("7"@ =~= seq![digit_char(7)]);
            }
            "7"
        },
        8 => {
            proof {
                reveal_strlit("8");
                assert("8"@ =~= seq![digit_char(8)]);
            }
            "8"
        },
        _ => {
            proof {
                reveal_strlit("9");
                assert("9"@ =~= seq![digit_char(9)]);
            }
            "9"
        },
    }
}

/// Renders a machine word as its plain decimal digits.
pub fn format_u64(n: u64) -> (r: String)
    ensures
        r@ == dec_str_of_nat(n as nat),
    decreases n,
{
    if n < 10 {
        String::from_str(digit_str(n))
    } else {
        let prefix = format_u64(n / 10);
        let digit = digit_str(n % 10);
        let r = prefix.concat(digit);
        proof {
            assert((n / 10) as nat == n as nat / 10);
            assert((n % 10) as nat == n as nat % 10);
            assert(prefix@ + digit@ =~= dec_str_of_nat(n as nat / 10).push(
                digit_char(n as nat % 10),
            ));
        }
        r
    }
}

impl Value {
    /// The boolean coercion; total, never fails.
    pub fn boolean(&self) -> (r: bool)
        ensures
            r == spec_boolean(self@),
    {
        match self {
            Value::Nodeset(ns) => ns.size() != 0,
            Value::String(s) => s.as_str().unicode_len() > 0,
            Value::Number(b) => num_truthy(*b),
            Value::Boolean(b) => *b,
        }
    }

    /// The string coercion; total, never fails.
    pub fn string(&self, doc: &Document) -> (r: String)
        ensures
            r@ == spec_string(self@, doc@),
    {
        match self {
            Value::Nodeset(ns) => {
                if ns.size() == 0 {
                    String::new()
                } else {
                    let on = ns.document_order();
                    proof {
                        assert(doc_order_seq(ns@) == seq![set_min(ns@)] + doc_order_seq(
                            ns@.remove(set_min(ns@)),
                        ));
                        assert(on@[0] == set_min(ns@));
                    }
                    let first = on.get(0);
                    doc.string_value(first)
                }
            },
            Value::String(s) => s.clone(),
            Value::Number(b) => {
                if num_is_nan(*b) {
                    String::from_str("NaN")
                } else if num_is_infinite(*b) {
                    if num_sign(*b) {
                        String::from_str("-Infinity")
                    } else {
                        String::from_str("Infinity")
                    }
                } else if num_is_zero(*b) {
                    if num_sign(*b) {
                        String::from_str("-0")
                    } else {
                        String::from_str("0")
                    }
                } else if num_is_integral(*b) && (*b >> 52) & 0x7FF < 1087 {
                    let digits = format_u64(trunc_u64(*b));
                    if num_sign(*b) {
                        let r = String::from_str("-").concat(digits.as_str());
                        proof {
                            reveal_strlit("-");
                            assert("-"@ + digits@ =~= seq!['-'] + dec_str_of_nat(trunc_of(*b)));
                        }
                        r
                    } else {
                        digits
                    }
                } else {
                    crate::num::format_double(*b)
                }
            },
            Value::Boolean(b) => {
                if *b {
                    String::from_str("true")
                } else {
                    String::from_str("false")
                }
            },
        }
    }

    /// The number coercion; total, never fails.
    pub fn number(&self, doc: &Document) -> (r: u64)
        ensures
            r == spec_number(self@, doc@),
    {
        match self {
            Value::Number(b) => *b,
            Value::Boolean(b) => if *b {
                ONE_BITS
            } else {
                0
            },
            Value::String(s) => string_to_number(s.as_str()),
            Value::Nodeset(_) => {
                let s = self.string(doc);
                string_to_number(s.as_str())
            },
        }
    }

    /// An equal value; what evaluating a literal or a variable returns.
    pub fn duplicate(&self) -> (r: Value)
        ensures
            r@ == self@,
    {
        match self {
            Value::Nodeset(ns) => {
                let d = ns.duplicate();
                proof {
                    assert(d@ == ns@);
                }
                Value::Nodeset(d)
            },
            Value::String(s) => Value::String(s.clone()),
            Value::Number(b) => Value::Number(*b),
            Value::Boolean(b) => Value::Boolean(*b),
        }
    }
}

/// Some node of each set has the same string-value as some node of the
/// other: how two nodesets compare equal.
pub open spec fn spec_ns_ns_eq(ls: Set<int>, rs: Set<int>, doc: Seq<Seq<char>>) -> bool {
    exists|a: int, b: int| ls.contains(a) && rs.contains(b) && node_str(doc, a) == node_str(doc, b)
}

/// Some node's string-value converts to exactly the number `v`.
pub open spec fn spec_ns_num_eq(ns: Set<int>, v: u64, doc: Seq<Seq<char>>) -> bool {
    exists|a: int| ns.contains(a) && ieee_eq(num_of_str(node_str(doc, a)), v)
}

/// Some node's string-value is exactly the string `s`.
pub open spec fn spec_ns_str_eq(ns: Set<int>, s: Seq<char>, doc: Seq<Seq<char>>) -> bool {
    exists|a: int| ns.contains(a) && node_str(doc, a) == s
}

/// XPath equality of two values, by the kind-directed dispatch: nodesets
/// compare through string-values, a boolean on either side compares as
/// booleans, then a number on either side as numbers, otherwise as strings.
pub open spec fn spec_equal_vals(l: ValueV, r: ValueV, doc: Seq<Seq<char>>) -> bool {
    match (l, r) {
        (ValueV::Nodeset(ls), ValueV::Nodeset(rs)) => spec_ns_ns_eq(ls, rs, doc),
        (ValueV::Nodeset(ns), ValueV::Num(v)) => spec_ns_num_eq(ns, v, doc),
        (ValueV::Num(v), ValueV::Nodeset(ns)) => spec_ns_num_eq(ns, v, doc),
        (ValueV::Nodeset(ns), ValueV::Str(s)) => spec_ns_str_eq(ns, s, doc),
        (ValueV::Str(s), ValueV::Nodeset(ns)) => spec_ns_str_eq(ns, s, doc),
        (ValueV::Bool(_), _) => spec_boolean(l) == spec_boolean(r),
        (_, ValueV::Bool(_)) => spec_boolean(l) == spec_boolean(r),
        (ValueV::Num(_), _) => ieee_eq(spec_number(l, doc), spec_number(r, doc)),
        (_, ValueV::Num(_)) => ieee_eq(spec_number(l, doc), spec_number(r, doc)),
        _ => spec_string(l, doc) == spec_string(r, doc),
    }
}

fn nodeset_has_string(ns: &Nodeset, s: &String, doc: &Document) -> (r: bool)
    ensures
        r == spec_ns_str_eq(ns@, s@, doc@),
{
    proof {
        lemma_nodeset_view(ns);
    }
    let len = ns.nodes.len();
    for i in 0..len
        invariant
            len == ns.nodes@.len(),
            forall|j: int| 0 <= j < i ==> node_str(doc@, ns.nodes@[j].id as int) != s@,
    {
        let sv = doc.string_value(ns.nodes[i]);
        if sv == *s {
            proof {
                lemma_nodeset_view(ns);
                assert(ids_of(ns.nodes@)[i as int] == ns.nodes@[i as int].id as int);
                assert(ids_of(ns.nodes@).contains(ns.nodes@[i as int].id as int));
                assert(ns@.contains(ns.nodes@[i as int].id as int));
            }
            return true;
        }
    }
    proof {
        lemma_nodeset_view(ns);
        if exists|a: int| ns@.contains(a) && node_str(doc@, a) == s@ {
            let a = choose|a: int| ns@.contains(a) && node_str(doc@, a) == s@;
            let j = choose|j: int| 0 <= j < ids_of(ns.nodes@).len() && ids_of(ns.nodes@)[j] == a;
            assert(ns.nodes@[j].id as int == a);
        }
    }
    false
}

fn nodeset_has_number(ns: &Nodeset, v: u64, doc: &Document) -> (r: bool)
    ensures
        r == spec_ns_num_eq(ns@, v, doc@),
{
    proof {
        lemma_nodeset_view(ns);
    }
    let len = ns.nodes.len();
    for i in 0..len
        invariant
            len == ns.nodes@.len(),
            forall|j: int|
                0 <= j < i ==> !ieee_eq(num_of_str(node_str(doc@, ns.nodes@[j].id as int)), v),
    {
        let sv = doc.string_value(ns.nodes[i]);
        let nb = string_to_number(sv.as_str());
        if num_eq(nb, v) {
            proof {
                lemma_nodeset_view(ns);
                assert(ids_of(ns.nodes@)[i as int] == ns.nodes@[i as int].id as int);
                assert(ids_of(ns.nodes@).contains(ns.nodes@[i as int].id as int));
                assert(ns@.contains(ns.nodes@[i as int].id as int));
            }
            return true;
        }
    }
    proof {
        lemma_nodeset_view(ns);
        if exists|a: int| ns@.contains(a) && ieee_eq(num_of_str(node_str(doc@, a)), v) {
            let a = choose|a: int| ns@.contains(a) && ieee_eq(num_of_str(node_str(doc@, a)), v);
            let j = choose|j: int| 0 <= j < ids_of(ns.nodes@).len() && ids_of(ns.nodes@)[j] == a;
            assert(ns.nodes@[j].id as int == a);
        }
    }
    false
}

fn nodeset_strings_intersect(ln: &Nodeset, rn: &Nodeset, doc: &Document) -> (r: bool)
    ensures
        r == spec_ns_ns_eq(ln@, rn@, doc@),
{
    proof {
        lemma_nodeset_view(ln);
    }
    let len = ln.nodes.len();
    for i in 0..len
        invariant
            len == ln.nodes@.len(),
            forall|j: int, b: int|
                0 <= j < i && rn@.contains(b) ==> node_str(doc@, ln.nodes@[j].id as int)
                    != node_str(doc@, b),
    {
        let sv = doc.string_value(ln.nodes[i]);
        if nodeset_has_string(rn, &sv, doc) {
            proof {
                lemma_nodeset_view(ln);
                assert(ids_of(ln.nodes@)[i as int] == ln.nodes@[i as int].id as int);
                assert(ids_of(ln.nodes@).contains(ln.nodes@[i as int].id as int));
                assert(ln@.contains(ln.nodes@[i as int].id as int));
            }
            return true;
        }
    }
    proof {
        lemma_nodeset_view(ln);
        if exists|a: int, b: int|
            ln@.contains(a) && rn@.contains(b) && node_str(doc@, a) == node_str(doc@, b) {
            let (a, b) = choose|a: int, b: int|
                ln@.contains(a) && rn@.contains(b) && node_str(doc@, a) == node_str(doc@, b);
            let j = choose|j: int| 0 <= j < ids_of(ln.nodes@).len() && ids_of(ln.nodes@)[j] == a;
            assert(ln.nodes@[j].id as int == a);
        }
    }
    false
}

/// Decides XPath equality of two values, per `spec_equal_vals`.
pub fn equal_values(l: &Value, r: &Value, doc: &Document) -> (b: bool)
    ensures
        b == spec_equal_vals(l@, r@, doc@),
{
    match (l, r) {
        (Value::Nodeset(ln), Value::Nodeset(rn)) => nodeset_strings_intersect(ln, rn, doc),
        (Value::Nodeset(ns), Value::Number(v)) => nodeset_has_number(ns, *v, doc),
        (Value::Number(v), Value::Nodeset(ns)) => nodeset_has_number(ns, *v, doc),
        (Value::Nodeset(ns), Value::String(s)) => nodeset_has_string(ns, s, doc),
        (Value::String(s), Value::Nodeset(ns)) => nodeset_has_string(ns, s, doc),
        (Value::Boolean(_), _) => l.boolean() == r.boolean(),
        (_, Value::Boolean(_)) => l.boolean() == r.boolean(),
        (Value::Number(_), _) => num_eq(l.number(doc), r.number(doc)),
        (_, Value::Number(_)) => num_eq(l.number(doc), r.number(doc)),
        _ => {
            let ls = l.string(doc);
            let rs = r.string(doc);
            ls == rs
        },
    }
}

} // verus!
