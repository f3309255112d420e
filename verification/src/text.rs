use vstd::prelude::*;

verus! {

/// Whether `s` spells exactly `lit`.
pub fn text_is(s: &String, lit: &str) -> (r: bool)
    ensures
        r == (s@ == lit@),
{
    let t = String::from_str(lit);
    *s == t
}

} // verus!

verus! {

/// The characters of `s`, in order.
pub fn chars_of(s: &String) -> (v: Vec<char>)
    ensures
        v@ == s@,
{
    broadcast use vstd::string::axiom_spec_iter;
    let mut v: Vec<char> = Vec::new();
    for c in it: s.as_str().chars()
        invariant
            v@ == it.seq().take(it.index() as int),
    {
        v.push(c);
    }
    assert(v@ =~= s@);
    v
}

} // verus!

verus! {

pub open spec fn spec_ascii_lower(c: char) -> char {
    if 'A' <= c && c <= 'Z' {
        ((c as u8) + 32) as char
    } else {
        c
    }
}

pub open spec fn spec_ascii_upper(c: char) -> char {
    if 'a' <= c && c <= 'z' {
        ((c as u8) - 32) as char
    } else {
        c
    }
}

pub open spec fn lowered(s: Seq<char>) -> Seq<char> {
    s.map_values(|c: char| spec_ascii_lower(c))
}

pub open spec fn uppered(s: Seq<char>) -> Seq<char> {
    s.map_values(|c: char| spec_ascii_upper(c))
}

/// Whether `needle` occurs in `hay` at position `i`.
pub open spec fn occurs_at(hay: Seq<char>, needle: Seq<char>, i: int) -> bool {
    0 <= i && i + needle.len() <= hay.len() && hay.subrange(i, i + needle.len() as int) == needle
}

pub open spec fn occurs(hay: Seq<char>, needle: Seq<char>) -> bool {
    exists|i: int| occurs_at(hay, needle, i)
}

/// The first position of `needle` in `hay`, if any.
pub open spec fn first_occurrence(hay: Seq<char>, needle: Seq<char>) -> Option<int> {
    if occurs(hay, needle) {
        Some(choose|i: int| occurs_at(hay, needle, i) && forall|j: int| 0 <= j < i ==> !occurs_at(hay, needle, j))
    } else {
        None
    }
}

pub fn ascii_lower(c: char) -> (r: char)
    ensures
        r == spec_ascii_lower(c),
{
    if 'A' <= c && c <= 'Z' {
        ((c as u8) + 32) as char
    } else {
        c
    }
}

pub fn ascii_upper(c: char) -> (r: char)
    ensures
        r == spec_ascii_upper(c),
{
    if 'a' <= c && c <= 'z' {
        ((c as u8) - 32) as char
    } else {
        c
    }
}

/// `s` with ASCII letters in lower case.
pub fn to_lower_chars(s: &String) -> (v: Vec<char>)
    ensures
        v@ == lowered(s@),
{
    let cs = chars_of(s);
    let mut v: Vec<char> = Vec::new();
    let mut i: usize = 0;
    while i < cs.len()
        invariant
            i <= cs@.len(),
            cs@ == s@,
            v@ == lowered(cs@.take(i as int)),
        decreases cs@.len() - i,
    {
        v.push(ascii_lower(cs[i]));
        proof {
            assert(lowered(cs@.take(i + 1)) =~= lowered(cs@.take(i as int)).push(spec_ascii_lower(cs@[i as int])));
        }
        i += 1;
    }
    assert(cs@.take(cs@.len() as int) =~= cs@);
    v
}

/// `s` with ASCII letters in upper case.
pub fn to_upper_chars(s: &String) -> (v: Vec<char>)
    ensures
        v@ == uppered(s@),
{
    let cs = chars_of(s);
    let mut v: Vec<char> = Vec::new();
    let mut i: usize = 0;
    while i < cs.len()
        invariant
            i <= cs@.len(),
            cs@ == s@,
            v@ == uppered(cs@.take(i as int)),
        decreases cs@.len() - i,
    {
        v.push(ascii_upper(cs[i]));
        proof {
            assert(uppered(cs@.take(i + 1)) =~= uppered(cs@.take(i as int)).push(spec_ascii_upper(cs@[i as int])));
        }
        i += 1;
    }
    assert(cs@.take(cs@.len() as int) =~= cs@);
    v
}

fn matches_at(hay: &Vec<char>, needle: &Vec<char>, i: usize) -> (r: bool)
    requires
        i + needle@.len() <= hay@.len(),
    ensures
        r == occurs_at(hay@, needle@, i as int),
{
    let hl = hay.len();
    let mut j: usize = 0;
    while j < needle.len()
        invariant
            j <= needle@.len(),
            hl == hay@.len(),
            i + needle@.len() <= hay@.len(),
            forall|k: int| 0 <= k < j ==> hay@[i + k] == needle@[k],
        decreases needle@.len() - j,
    {
        if hay[i + j] != needle[j] {
            assert(hay@.subrange(i as int, i + needle@.len())[j as int] != needle@[j as int]);
            return false;
        }
        j += 1;
    }
    assert(hay@.subrange(i as int, i + needle@.len()) =~= needle@);
    true
}

/// The first position of `needle` in `hay`.
pub fn find_chars(hay: &Vec<char>, needle: &Vec<char>) -> (r: Option<usize>)
    ensures
        r matches Some(i) ==> first_occurrence(hay@, needle@) == Some(i as int),
        r is None ==> first_occurrence(hay@, needle@) is None,
{
    if needle.len() > hay.len() {
        assert(!occurs(hay@, needle@));
        return None;
    }
    let last = hay.len() - needle.len();
    let mut i: usize = 0;
    loop
        invariant
            last + needle@.len() == hay@.len(),
            i <= last,
            forall|j: int| 0 <= j < i ==> !occurs_at(hay@, needle@, j),
        decreases last - i,
    {
        if matches_at(hay, needle, i) {
            proof {
                assert(occurs(hay@, needle@));
                let w = choose|w: int| occurs_at(hay@, needle@, w) && forall|j: int| 0 <= j < w ==> !occurs_at(hay@, needle@, j);
                if w < i {
                } else if w > i {
                }
            }
            return Some(i);
        }
        if i == last {
            assert forall|j: int| #![trigger occurs_at(hay@, needle@, j)] !occurs_at(hay@, needle@, j) by {
                if j > last {
                }
            }
            return None;
        }
        i += 1;
    }
}

/// Whether `needle` occurs in `hay`.
pub fn contains_chars(hay: &Vec<char>, needle: &Vec<char>) -> (r: bool)
    ensures
        r == occurs(hay@, needle@),
{
    find_chars(hay, needle).is_some()
}

/// The characters of a literal.
pub fn literal_chars(lit: &str) -> (v: Vec<char>)
    ensures
        v@ == lit@,
{
    let s = String::from_str(lit);
    chars_of(&s)
}

pub open spec fn is_ascii_digit(c: char) -> bool {
    '0' <= c && c <= '9'
}

/// The run of decimal digits of `s` that starts at `from`.
pub open spec fn digit_run(s: Seq<char>, from: int) -> Seq<char>
    decreases s.len() - from,
{
    if 0 <= from < s.len() && is_ascii_digit(s[from]) {
        seq![s[from]] + digit_run(s, from + 1)
    } else {
        Seq::empty()
    }
}

pub open spec fn decimal_value(d: Seq<char>) -> nat
    decreases d.len(),
{
    if d.len() == 0 {
        0
    } else {
        decimal_value(d.drop_last()) * 10 + ((d.last() as u32) - ('0' as u32)) as nat
    }
}

/// The value of the decimal number of `s` that starts at `from`; `None` when
/// there is no digit there or the number does not fit in a `usize`.
pub open spec fn spec_parse_digits(s: Seq<char>, from: int) -> Option<usize> {
    let d = digit_run(s, from);
    if d.len() == 0 || decimal_value(d) > usize::MAX {
        None
    } else {
        Some(decimal_value(d) as usize)
    }
}

proof fn lemma_digits_prefix(s: Seq<char>, from: int, i: int)
    requires
        0 <= from <= i,
        i <= s.len(),
        forall|k: int| from <= k < i ==> 0 <= k < s.len() && is_ascii_digit(s[k]),
    ensures
        digit_run(s, from) == s.subrange(from, i) + digit_run(s, i),
    decreases i - from,
{
    if from < i {
        lemma_digits_prefix(s, from + 1, i);
        assert(s.subrange(from, i) =~= seq![s[from]] + s.subrange(from + 1, i));
        assert((seq![s[from]] + s.subrange(from + 1, i)) + digit_run(s, i) =~= seq![s[from]] + (
        s.subrange(from + 1, i) + digit_run(s, i)));
    } else {
        assert(s.subrange(from, i) =~= Seq::<char>::empty());
        assert(Seq::<char>::empty() + digit_run(s, i) =~= digit_run(s, i));
    }
}

proof fn lemma_decimal_monotone(d: Seq<char>, k: int)
    requires
        0 <= k <= d.len(),
        forall|j: int| 0 <= j < d.len() ==> is_ascii_digit(d[j]),
    ensures
        decimal_value(d.take(k)) <= decimal_value(d),
    decreases d.len() - k,
{
    if k < d.len() {
        lemma_decimal_monotone(d, k + 1);
        assert(d.take(k + 1).drop_last() =~= d.take(k));
        assert(decimal_value(d.take(k)) <= decimal_value(d.take(k + 1))) by (nonlinear_arith)
            requires
                decimal_value(d.take(k + 1)) == decimal_value(d.take(k)) * 10 + ((d.take(k + 1).last() as u32) - ('0' as u32)) as nat,
        ;
    } else {
        assert(d.take(k) =~= d);
    }
}

proof fn lemma_digit_run_all_digits(s: Seq<char>, from: int)
    ensures
        forall|j: int| 0 <= j < digit_run(s, from).len() ==> is_ascii_digit(#[trigger] digit_run(s, from)[j]),
        forall|j: int| 0 <= j < digit_run(s, from).len() ==> digit_run(s, from)[j] == s[from + j],
        digit_run(s, from).len() > 0 ==> 0 <= from,
        from + digit_run(s, from).len() <= s.len() || digit_run(s, from).len() == 0,
        from + digit_run(s, from).len() < s.len() && 0 <= from ==> !is_ascii_digit(s[from + digit_run(s, from).len()]),
    decreases s.len() - from,
{
    if 0 <= from < s.len() && is_ascii_digit(s[from]) {
        lemma_digit_run_all_digits(s, from + 1);
    }
}

/// Parses the decimal number of `s` that starts at `from`.
pub fn parse_digits(s: &Vec<char>, from: usize) -> (r: Option<usize>)
    ensures
        r == spec_parse_digits(s@, from as int),
{
    proof {
        lemma_digit_run_all_digits(s@, from as int);
    }
    let ghost d = digit_run(s@, from as int);
    let mut i: usize = from;
    let mut value: usize = 0;
    let mut overflow = false;
    while i < s.len() && '0' <= s[i] && s[i] <= '9'
        invariant
            from <= i,
            i <= s@.len() || i == from,
            d == digit_run(s@, from as int),
            forall|k: int| from <= k < i ==> 0 <= k < s@.len() && is_ascii_digit(s@[k]),
            d.len() >= i - from,
            !overflow ==> value as nat == decimal_value(d.take(i - from)),
            overflow ==> decimal_value(d.take(i - from)) > usize::MAX,
        decreases s@.len() - i,
    {
        proof {
            lemma_digits_prefix(s@, from as int, i as int);
            lemma_digit_run_all_digits(s@, i as int);
            assert(d.take(i + 1 - from).drop_last() =~= d.take(i - from));
            assert(d[i - from] == s@[i as int]);
        }
        let digit = (s[i] as u32 - '0' as u32) as usize;
        if !overflow {
            match value.checked_mul(10) {
                Some(v10) => match v10.checked_add(digit) {
                    Some(v) => {
                        value = v;
                    },
                    None => {
                        overflow = true;
                    },
                },
                None => {
                    overflow = true;
                    assert(decimal_value(d.take(i + 1 - from)) >= decimal_value(d.take(i - from)) * 10);
                },
            }
        } else {
            assert(decimal_value(d.take(i + 1 - from)) >= decimal_value(d.take(i - from))) by (nonlinear_arith)
                requires
                    decimal_value(d.take(i + 1 - from)) == decimal_value(d.take(i - from)) * 10 + ((d.take(i + 1 - from).last() as u32) - ('0' as u32)) as nat,
            ;
        }
        i += 1;
    }
    proof {
        if i <= s@.len() {
            lemma_digits_prefix(s@, from as int, i as int);
        }
        lemma_digit_run_all_digits(s@, i as int);
        assert(d.take(i - from) =~= d);
    }
    if i == from || overflow {
        None
    } else {
        Some(value)
    }
}

} // verus!

verus! {

// ---------------------------------------------------------------------------
// Numbers as text.
// ---------------------------------------------------------------------------

/// The character of digit `d` (below 16) in lower-case hexadecimal, which
/// for `d < 10` is its decimal digit.
pub open spec fn digit_char(d: nat) -> char {
    if d < 10 {
        (48 + d) as char
    } else {
        (87 + d) as char
    }
}

/// `n` in decimal, without sign or leading zeros.
pub open spec fn decimal_text(n: nat) -> Seq<char>
    decreases n,
{
    if n < 10 {
        seq![digit_char(n)]
    } else {
        decimal_text(n / 10).push(digit_char(n % 10))
    }
}

/// `n` in lower-case hexadecimal, without prefix or leading zeros.
pub open spec fn hex_text(n: nat) -> Seq<char>
    decreases n,
{
    if n < 16 {
        seq![digit_char(n)]
    } else {
        hex_text(n / 16).push(digit_char(n % 16))
    }
}

/// `s` padded on the left with `'0'` to at least `width` characters.
pub open spec fn zero_padded(s: Seq<char>, width: nat) -> Seq<char> {
    if s.len() >= width {
        s
    } else {
        Seq::new((width - s.len()) as nat, |i: int| '0') + s
    }
}

/// The one-character text of digit `d` (below 16) in lower-case hexadecimal.
fn digit_str(d: u64) -> (r: &'static str)
    requires
        d < 16,
    ensures
        r@ == seq![digit_char(d as nat)],
{
    proof {
        reveal_strlit("0");
        reveal_strlit("1");
        reveal_strlit("2");
        reveal_strlit("3");
        reveal_strlit("4");
        reveal_strlit("5");
        reveal_strlit("6");
        reveal_strlit("7");
        reveal_strlit("8");
        reveal_strlit("9");
        reveal_strlit("a");
        reveal_strlit("b");
        reveal_strlit("c");
        reveal_strlit("d");
        reveal_strlit("e");
        reveal_strlit("f");
    }
    match d {
        0 => "0",
        1 => "1",
        2 => "2",
        3 => "3",
        4 => "4",
        5 => "5",
        6 => "6",
        7 => "7",
        8 => "8",
        9 => "9",
        10 => "a",
        11 => "b",
        12 => "c",
        13 => "d",
        14 => "e",
        _ => "f",
    }
}

/// `n` in decimal, without sign or leading zeros, as `to_string` writes an
/// unsigned integer.
pub(crate) fn decimal_string(n: u64) -> (r: String)
    ensures
        r@ == decimal_text(n as nat),
    decreases n,
{
    if n < 10 {
        String::from_str(digit_str(n))
    } else {
        let mut s = decimal_string(n / 10);
        s.append(digit_str(n % 10));
        s
    }
}

/// `n` in lower-case hexadecimal, without prefix or leading zeros.
fn hex_string(n: u64) -> (r: String)
    ensures
        r@ == hex_text(n as nat),
    decreases n,
{
    if n < 16 {
        String::from_str(digit_str(n))
    } else {
        let mut s = hex_string(n / 16);
        s.append(digit_str(n % 16));
        s
    }
}

/// `n` in lower-case hexadecimal padded on the left with zeros to at least
/// eight digits, as `format!("{:08x}", n)` writes it.
pub(crate) fn hex8_string(n: u64) -> (r: String)
    ensures
        r@ == zero_padded(hex_text(n as nat), 8),
{
    let digits = hex_string(n);
    let len = digits.as_str().unicode_len();
    if len >= 8 {
        return digits;
    }
    let mut pad = String::new();
    let mut k: usize = 0;
    while k < 8 - len
        invariant
            len < 8,
            k <= 8 - len,
            pad@ == Seq::new(k as nat, |i: int| '0'),
        decreases 8 - len - k,
    {
        pad.append(digit_str(0));
        k = k + 1;
    }
    pad.concat(digits.as_str())
}

/// `prefix` followed by `n` in decimal.
pub fn prefixed_decimal(prefix: &str, n: u64) -> (r: String)
    ensures
        r@ == prefix@ + decimal_text(n as nat),
{
    let digits = decimal_string(n);
    String::from_str(prefix).concat(digits.as_str())
}

/// The trace row id of micro-op `seq`: `uop` and its number.
pub fn uop_row_id(seq: usize) -> (r: String)
    ensures
        r@ == "uop"@ + decimal_text(seq as nat),
{
    prefixed_decimal("uop", seq as u64)
}

} // verus!
