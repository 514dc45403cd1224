//! Character-sequence helpers used by the parsers and formatters.

use vstd::prelude::*;

verus! {

broadcast use vstd::string::group_string_axioms;

/// `String::push` appends one character at the end of the string.
pub assume_specification[ String::push ](s: &mut String, ch: char)
    ensures
        final(s)@ == old(s)@.push(ch),
;

/// The characters of a string slice, in order.
pub fn chars_of(s: &str) -> (v: Vec<char>)
    ensures
        v@ == s@,
{
    let mut v: Vec<char> = Vec::new();
    for c in it: s.chars()
        invariant
            v@ == it.seq().take(it.index()),
    {
        v.push(c);
    }
    v
}

/// A string made of the given characters.
pub fn string_of(v: &Vec<char>) -> (s: String)
    ensures
        s@ == v@,
{
    let mut s = String::new();
    let mut i: usize = 0;
    while i < v.len()
        invariant
            i <= v.len(),
            s@ == v@.take(i as int),
        decreases v.len() - i,
    {
        s.push(v[i]);
        i = i + 1;
        assert(v@.take(i as int) == v@.take(i - 1).push(v@[i - 1]));
    }
    assert(v@.take(v.len() as int) == v@);
    s
}

/// Code-point order of two characters.
pub open spec fn char_lt(a: char, b: char) -> bool {
    (a as int) < (b as int)
}

/// Lexicographic order of character sequences by code point, which is the
/// order `Ord` gives `str` (UTF-8 keeps code-point order byte by byte).
pub open spec fn lex_lt(a: Seq<char>, b: Seq<char>) -> bool
    decreases a.len(),
{
    if a.len() == 0 {
        b.len() > 0
    } else if b.len() == 0 {
        false
    } else if a[0] != b[0] {
        char_lt(a[0], b[0])
    } else {
        lex_lt(a.drop_first(), b.drop_first())
    }
}

pub proof fn lemma_lex_irreflexive(a: Seq<char>)
    ensures
        !lex_lt(a, a),
    decreases a.len(),
{
    if a.len() > 0 {
        lemma_lex_irreflexive(a.drop_first());
    }
}

pub proof fn lemma_lex_transitive(a: Seq<char>, b: Seq<char>, c: Seq<char>)
    requires
        lex_lt(a, b),
        lex_lt(b, c),
    ensures
        lex_lt(a, c),
    decreases a.len(),
{
    if a.len() > 0 && b.len() > 0 && c.len() > 0 {
        if a[0] == b[0] && b[0] == c[0] {
            lemma_lex_transitive(a.drop_first(), b.drop_first(), c.drop_first());
        }
    }
}

pub proof fn lemma_lex_total(a: Seq<char>, b: Seq<char>)
    ensures
        a == b || lex_lt(a, b) || lex_lt(b, a),
    decreases a.len(),
{
    if a.len() > 0 && b.len() > 0 && a[0] == b[0] {
        lemma_lex_total(a.drop_first(), b.drop_first());
        if a.drop_first() == b.drop_first() {
            assert(a =~= seq![a[0]] + a.drop_first());
            assert(b =~= seq![b[0]] + b.drop_first());
        }
    } else if a.len() == 0 && b.len() == 0 {
        assert(a =~= b);
    } else if a.len() > 0 && b.len() > 0 {
        assert((a[0] as int) != (b[0] as int));
    }
}

pub proof fn lemma_lex_asymmetric(a: Seq<char>, b: Seq<char>)
    requires
        lex_lt(a, b),
    ensures
        !lex_lt(b, a),
{
    if lex_lt(b, a) {
        lemma_lex_transitive(a, b, a);
        lemma_lex_irreflexive(a);
    }
}

/// Outcome of comparing two character sequences.
#[derive(Debug, Clone, Copy, PartialEq, Eq, Structural)]
pub enum CharOrder {
    Less,
    Equal,
    Greater,
}

/// Compares two character sequences in code-point lexicographic order.
pub fn compare_chars(a: &Vec<char>, b: &Vec<char>) -> (r: CharOrder)
    ensures
        r == CharOrder::Less <==> lex_lt(a@, b@),
        r == CharOrder::Equal <==> a@ == b@,
        r == CharOrder::Greater <==> lex_lt(b@, a@),
{
    proof {
        lemma_lex_total(a@, b@);
        lemma_lex_irreflexive(a@);
        if lex_lt(a@, b@) {
            lemma_lex_asymmetric(a@, b@);
        }
    }
    let mut i: usize = 0;
    assert(a@.skip(0) =~= a@);
    assert(b@.skip(0) =~= b@);
    while i < a.len() && i < b.len()
        invariant
            i <= a.len(),
            i <= b.len(),
            a@.take(i as int) == b@.take(i as int),
            lex_lt(a@, b@) == lex_lt(a@.skip(i as int), b@.skip(i as int)),
            lex_lt(b@, a@) == lex_lt(b@.skip(i as int), a@.skip(i as int)),
        decreases a.len() - i,
    {
        let x = a[i];
        let y = b[i];
        if x != y {
            assert(a@.skip(i as int)[0] == x);
            assert(b@.skip(i as int)[0] == y);
            if x < y {
                return CharOrder::Less;
            } else {
                return CharOrder::Greater;
            }
        }
        assert(a@.skip(i as int).drop_first() =~= a@.skip(i + 1));
        assert(b@.skip(i as int).drop_first() =~= b@.skip(i + 1));
        assert(a@.take(i + 1) =~= a@.take(i as int).push(x));
        assert(b@.take(i + 1) =~= b@.take(i as int).push(y));
        i = i + 1;
    }
    if a.len() == b.len() {
        assert(a@ =~= a@.take(i as int));
        assert(b@ =~= b@.take(i as int));
        CharOrder::Equal
    } else if a.len() < b.len() {
        assert(a@.skip(i as int).len() == 0);
        CharOrder::Less
    } else {
        assert(b@.skip(i as int).len() == 0);
        CharOrder::Greater
    }
}

/// `p` occurs in `s` starting at `i`.
pub open spec fn occurs_at(s: Seq<char>, p: Seq<char>, i: int) -> bool {
    0 <= i && i + p.len() <= s.len() && s.subrange(i, i + p.len()) == p
}

/// The first position at or after `i` where `p` occurs in `s`.
pub open spec fn find_from(s: Seq<char>, p: Seq<char>, i: int) -> Option<int>
    decreases s.len() + 1 - i,
{
    if i < 0 || i + p.len() > s.len() {
        None
    } else if occurs_at(s, p, i) {
        Some(i)
    } else {
        find_from(s, p, i + 1)
    }
}

/// `p` occurs somewhere in `s` (what `str::contains` answers).
pub open spec fn has_infix(s: Seq<char>, p: Seq<char>) -> bool {
    find_from(s, p, 0) is Some
}

proof fn lemma_find_from_found(s: Seq<char>, p: Seq<char>, i: int)
    requires
        find_from(s, p, i) is Some,
    ensures
        i <= find_from(s, p, i)->0,
        occurs_at(s, p, find_from(s, p, i)->0),
        forall|j: int| i <= j < find_from(s, p, i)->0 ==> !occurs_at(s, p, j),
    decreases s.len() + 1 - i,
{
    if !occurs_at(s, p, i) {
        lemma_find_from_found(s, p, i + 1);
    }
}

/// The first occurrence of `p` in `s` at or after `from`.
pub fn find_chars(s: &Vec<char>, p: &Vec<char>, from: usize) -> (r: Option<usize>)
    ensures
        match r {
            Some(i) => find_from(s@, p@, from as int) == Some(i as int),
            None => find_from(s@, p@, from as int) is None,
        },
{
    if p.len() == 0 {
        if from <= s.len() {
            assert(s@.subrange(from as int, from as int) =~= p@);
            return Some(from);
        }
        return None;
    }
    let mut i = from;
    while i < s.len() && p.len() <= s.len() - i
        invariant
            from <= i,
            p.len() > 0,
            find_from(s@, p@, from as int) == find_from(s@, p@, i as int),
        decreases s.len() - i,
    {
        let mut j: usize = 0;
        let mut same = true;
        while j < p.len()
            invariant
                i + p.len() <= s.len(),
                j <= p.len(),
                same <==> forall|x: int| 0 <= x < j ==> s@[i + x] == p@[x],
            decreases p.len() - j,
        {
            if s[i + j] != p[j] {
                same = false;
            }
            j = j + 1;
        }
        if same {
            assert(s@.subrange(i as int, i + p.len()) =~= p@);
            return Some(i);
        }
        assert(!occurs_at(s@, p@, i as int)) by {
            if occurs_at(s@, p@, i as int) {
                assert forall|x: int| 0 <= x < p.len() implies s@[i + x] == p@[x] by {
                    assert(s@.subrange(i as int, i + p.len())[x] == s@[i + x]);
                }
            }
        }
        i = i + 1;
    }
    None
}

/// A string slice's characters occur in `s`.
pub fn contains_str(s: &Vec<char>, lit: &str) -> (r: bool)
    ensures
        r == has_infix(s@, lit@),
{
    let p = chars_of(lit);
    find_chars(s, &p, 0).is_some()
}

/// `s` is exactly the characters of `lit`.
pub fn equals_str(s: &Vec<char>, lit: &str) -> (r: bool)
    ensures
        r == (s@ == lit@),
{
    let p = chars_of(lit);
    compare_chars(s, &p) == CharOrder::Equal
}

/// `s` begins with the characters of `lit`.
pub fn starts_with_str(s: &Vec<char>, lit: &str) -> (r: bool)
    ensures
        r == lit@.is_prefix_of(s@),
{
    let p = chars_of(lit);
    assert(p@ == lit@);
    if p.len() > s.len() {
        return false;
    }
    let mut j: usize = 0;
    while j < p.len()
        invariant
            p@ == lit@,
            p.len() <= s.len(),
            j <= p.len(),
            p@.take(j as int) == s@.take(j as int),
        decreases p.len() - j,
    {
        if s[j] != p[j] {
            assert(s@.subrange(0, p.len() as int)[j as int] != p@[j as int]);
            assert(!(p@ =~= s@.subrange(0, p.len() as int)));
            return false;
        }
        assert(p@.take(j + 1) == p@.take(j as int).push(p@[j as int]));
        assert(s@.take(j + 1) == s@.take(j as int).push(s@[j as int]));
        j = j + 1;
    }
    assert(p@.take(p.len() as int) == p@);
    true
}

/// `char::is_whitespace`: the Unicode `White_Space` characters.
pub open spec fn is_space(c: char) -> bool {
    let n = c as int;
    ||| 0x09 <= n <= 0x0D
    ||| n == 0x20
    ||| n == 0x85
    ||| n == 0xA0
    ||| n == 0x1680
    ||| 0x2000 <= n <= 0x200A
    ||| n == 0x2028
    ||| n == 0x2029
    ||| n == 0x202F
    ||| n == 0x205F
    ||| n == 0x3000
}

pub fn is_space_exec(c: char) -> (r: bool)
    ensures
        r == is_space(c),
{
    ('\u{09}' <= c && c <= '\u{0D}') || c == ' ' || c == '\u{85}' || c == '\u{A0}' || c == '\u{1680}'
        || ('\u{2000}' <= c && c <= '\u{200A}') || c == '\u{2028}' || c == '\u{2029}' || c == '\u{202F}'
        || c == '\u{205F}' || c == '\u{3000}'
}

/// Number of leading whitespace characters.
pub open spec fn leading_spaces(s: Seq<char>) -> nat
    decreases s.len(),
{
    if s.len() > 0 && is_space(s[0]) {
        1 + leading_spaces(s.drop_first())
    } else {
        0
    }
}

/// Number of leading characters that are not whitespace.
pub open spec fn leading_word(s: Seq<char>) -> nat
    decreases s.len(),
{
    if s.len() > 0 && !is_space(s[0]) {
        1 + leading_word(s.drop_first())
    } else {
        0
    }
}

/// `str::trim_start`.
pub open spec fn trim_start(s: Seq<char>) -> Seq<char> {
    s.skip(leading_spaces(s) as int)
}

/// The `n`-th whitespace-separated word of `s` (`split_whitespace().nth(n)`).
pub open spec fn word_at(s: Seq<char>, n: nat) -> Option<Seq<char>>
    decreases n,
{
    let t = trim_start(s);
    if t.len() == 0 {
        None
    } else if n == 0 {
        Some(t.take(leading_word(t) as int))
    } else {
        word_at(t.skip(leading_word(t) as int), (n - 1) as nat)
    }
}

proof fn lemma_leading_spaces(s: Seq<char>)
    ensures
        leading_spaces(s) <= s.len(),
        forall|i: int| 0 <= i < leading_spaces(s) ==> is_space(#[trigger] s[i]),
        leading_spaces(s) < s.len() ==> !is_space(s[leading_spaces(s) as int]),
    decreases s.len(),
{
    if s.len() > 0 && is_space(s[0]) {
        lemma_leading_spaces(s.drop_first());
        assert forall|i: int| 0 <= i < leading_spaces(s) implies is_space(#[trigger] s[i]) by {
            if i > 0 {
                assert(s[i] == s.drop_first()[i - 1]);
            }
        }
    }
}

proof fn lemma_leading_spaces_exact(s: Seq<char>, k: int)
    requires
        0 <= k <= s.len(),
        forall|i: int| 0 <= i < k ==> is_space(#[trigger] s[i]),
        k < s.len() ==> !is_space(s[k]),
    ensures
        leading_spaces(s) == k,
    decreases s.len(),
{
    if k > 0 {
        lemma_leading_spaces_exact(s.drop_first(), k - 1);
    }
}

proof fn lemma_leading_word_exact(s: Seq<char>, k: int)
    requires
        0 <= k <= s.len(),
        forall|i: int| 0 <= i < k ==> !is_space(#[trigger] s[i]),
        k < s.len() ==> is_space(s[k]),
    ensures
        leading_word(s) == k,
    decreases s.len(),
{
    if k > 0 {
        lemma_leading_word_exact(s.drop_first(), k - 1);
    }
}

/// Position of the first character at or after `i` that is (`space`) or
/// is not (`!space`) whitespace, or the length.
fn skip_class(s: &Vec<char>, i: usize, space: bool) -> (r: usize)
    requires
        i <= s.len(),
    ensures
        i <= r <= s.len(),
        forall|j: int| i <= j < r ==> is_space(#[trigger] s@[j]) == space,
        r < s.len() ==> is_space(s@[r as int]) != space,
{
    let mut j = i;
    while j < s.len() && is_space_exec(s[j]) == space
        invariant
            i <= j <= s.len(),
            forall|x: int| i <= x < j ==> is_space(#[trigger] s@[x]) == space,
        decreases s.len() - j,
    {
        j = j + 1;
    }
    j
}

/// `s` without its leading whitespace.
pub fn trim_start_chars(s: &Vec<char>) -> (r: Vec<char>)
    ensures
        r@ == trim_start(s@),
{
    let k = skip_class(s, 0, true);
    proof {
        lemma_leading_spaces_exact(s@, k as int);
    }
    slice_chars(s, k, s.len())
}

/// The characters of `s` from `from` to `to`.
pub fn slice_chars(s: &Vec<char>, from: usize, to: usize) -> (r: Vec<char>)
    requires
        from <= to <= s.len(),
    ensures
        r@ == s@.subrange(from as int, to as int),
{
    let mut r: Vec<char> = Vec::new();
    let mut i = from;
    while i < to
        invariant
            from <= i <= to <= s.len(),
            r@ == s@.subrange(from as int, i as int),
        decreases to - i,
    {
        r.push(s[i]);
        assert(s@.subrange(from as int, i + 1) == s@.subrange(from as int, i as int).push(s@[i as int]));
        i = i + 1;
    }
    r
}

/// The second whitespace-separated word of `s`, if there is one.
pub fn second_word(s: &Vec<char>) -> (r: Option<Vec<char>>)
    ensures
        match r {
            Some(w) => word_at(s@, 1) == Some(w@),
            None => word_at(s@, 1) is None,
        },
{
    reveal_with_fuel(word_at, 2);
    let a = skip_class(s, 0, true);
    let ghost t = s@.skip(a as int);
    proof {
        lemma_leading_spaces_exact(s@, a as int);
        assert(trim_start(s@) == t);
    }
    if a == s.len() {
        return None;
    }
    let b = skip_class(s, a, false);
    let ghost u = t.skip(b - a);
    proof {
        lemma_leading_word_exact(t, b - a);
        assert(u =~= s@.skip(b as int));
    }
    let c = skip_class(s, b, true);
    proof {
        lemma_leading_spaces_exact(u, c - b);
        assert(trim_start(u) =~= s@.skip(c as int));
    }
    if c == s.len() {
        return None;
    }
    let e = skip_class(s, c, false);
    proof {
        let v = s@.skip(c as int);
        lemma_leading_word_exact(v, e - c);
        assert(v.take(e - c) =~= s@.subrange(c as int, e as int));
    }
    Some(slice_chars(s, c, e))
}

/// `s` with every trailing `c` taken off (`trim_end_matches(c)`).
pub open spec fn trim_end_char(s: Seq<char>, c: char) -> Seq<char>
    decreases s.len(),
{
    if s.len() > 0 && s.last() == c {
        trim_end_char(s.drop_last(), c)
    } else {
        s
    }
}

pub fn trim_end_char_exec(s: &Vec<char>, c: char) -> (r: Vec<char>)
    ensures
        r@ == trim_end_char(s@, c),
{
    let mut e = s.len();
    assert(s@.take(e as int) =~= s@);
    while e > 0 && s[e - 1] == c
        invariant
            e <= s.len(),
            trim_end_char(s@, c) == trim_end_char(s@.take(e as int), c),
        decreases e,
    {
        assert(s@.take(e as int).drop_last() == s@.take(e - 1));
        e = e - 1;
    }
    assert(s@.take(e as int) == s@.subrange(0, e as int));
    slice_chars(s, 0, e)
}

/// The text between the first and the second occurrence of `p` in `s`, or
/// to the end when `p` occurs once (`split(p).nth(1)`).
pub open spec fn piece_after(s: Seq<char>, p: Seq<char>) -> Option<Seq<char>> {
    match find_from(s, p, 0) {
        None => None,
        Some(i) => {
            let rest = s.skip(i + p.len());
            match find_from(rest, p, 0) {
                None => Some(rest),
                Some(j) => Some(rest.take(j)),
            }
        },
    }
}

pub fn piece_after_exec(s: &Vec<char>, lit: &str) -> (r: Option<Vec<char>>)
    requires
        lit@.len() > 0,
    ensures
        match r {
            Some(w) => piece_after(s@, lit@) == Some(w@),
            None => piece_after(s@, lit@) is None,
        },
{
    let p = chars_of(lit);
    match find_chars(s, &p, 0) {
        None => None,
        Some(i) => {
            proof {
                lemma_find_from_found(s@, p@, 0);
                assert(occurs_at(s@, p@, i as int));
                assert(i + p@.len() <= s@.len());
            }
            assert(i + p.len() <= s.len());
            let rest = slice_chars(s, i + p.len(), s.len());
            assert(rest@ =~= s@.skip(i + p.len()));
            match find_chars(&rest, &p, 0) {
                None => Some(rest),
                Some(j) => {
                    proof {
                        lemma_find_from_found(rest@, p@, 0);
                    }
                    Some(slice_chars(&rest, 0, j))
                },
            }
        },
    }
}

/// An ASCII decimal digit.
pub open spec fn is_digit(c: char) -> bool {
    0x30 <= (c as int) <= 0x39
}

/// Value of the decimal digits `s` (most significant first).
pub open spec fn digits_value(s: Seq<char>) -> int
    decreases s.len(),
{
    if s.len() == 0 {
        0
    } else {
        digits_value(s.drop_last()) * 10 + ((s.last() as int) - 0x30)
    }
}

/// `s` without the `+` it may start with.
pub open spec fn unsigned_digits(s: Seq<char>) -> Seq<char> {
    if s.len() > 0 && s[0] == '+' {
        s.drop_first()
    } else {
        s
    }
}

/// What `u32::from_str` accepts: an optional `+`, then one or more decimal
/// digits whose value fits in a `u32`.
pub open spec fn parse_u32_spec(s: Seq<char>) -> Option<u32> {
    let d = unsigned_digits(s);
    if d.len() > 0 && (forall|i: int| 0 <= i < d.len() ==> is_digit(#[trigger] d[i])) && digits_value(d)
        <= u32::MAX {
        Some(digits_value(d) as u32)
    } else {
        None
    }
}

proof fn lemma_digits_value_prefix(s: Seq<char>, k: int)
    requires
        0 <= k <= s.len(),
        forall|i: int| 0 <= i < s.len() ==> is_digit(#[trigger] s[i]),
    ensures
        0 <= digits_value(s.take(k)) <= digits_value(s),
    decreases s.len(),
{
    if k == s.len() {
        assert(s.take(k) =~= s);
        if s.len() > 0 {
            lemma_digits_value_prefix(s.drop_last(), k - 1);
        }
    } else {
        assert(s.take(k) =~= s.drop_last().take(k));
        lemma_digits_value_prefix(s.drop_last(), k);
        lemma_digits_value_prefix(s.drop_last(), s.len() - 1);
        assert(s.drop_last().take(s.len() - 1) =~= s.drop_last());
    }
}

/// Parses a decimal `u32` the way `str::parse::<u32>` does.
pub fn parse_u32(s: &Vec<char>) -> (r: Option<u32>)
    ensures
        r == parse_u32_spec(s@),
{
    let start: usize = if s.len() > 0 && s[0] == '+' { 1 } else { 0 };
    let ghost d = unsigned_digits(s@);
    assert(d =~= s@.skip(start as int));
    if start == s.len() {
        return None;
    }
    let mut v: u64 = 0;
    let mut i = start;
    while i < s.len()
        invariant
            start <= i <= s.len(),
            d == unsigned_digits(s@),
            d.len() > 0,
            d =~= s@.skip(start as int),
            forall|x: int| 0 <= x < i - start ==> is_digit(#[trigger] d[x]),
            v == digits_value(d.take(i - start)),
            v <= u32::MAX,
        decreases s.len() - i,
    {
        let c = s[i];
        if !('0' <= c && c <= '9') {
            assert(!is_digit(d[i - start]));
            assert(!(forall|x: int| 0 <= x < d.len() ==> is_digit(#[trigger] d[x])));
            assert(parse_u32_spec(s@) is None);
            return None;
        }
        let dv = (c as u32 - '0' as u32) as u64;
        assert(d.take(i + 1 - start).drop_last() =~= d.take(i - start));
        v = v * 10 + dv;
        if v > 0xFFFF_FFFF {
            proof {
                if forall|x: int| 0 <= x < d.len() ==> is_digit(#[trigger] d[x]) {
                    lemma_digits_value_prefix(d, i + 1 - start);
                    assert(digits_value(d.take(i + 1 - start)) == v);
                }
                assert(parse_u32_spec(s@) is None);
            }
            return None;
        }
        i = i + 1;
    }
    assert(d.take(i - start) =~= d);
    Some(v as u32)
}

/// The character of a decimal digit.
pub open spec fn digit_char(n: int) -> char {
    (0x30 + n) as char
}

/// Decimal rendering of `n` without leading zeros.
pub open spec fn decimal(n: nat) -> Seq<char>
    decreases n,
{
    if n < 10 {
        seq![digit_char(n as int)]
    } else {
        decimal(n / 10).push(digit_char((n % 10) as int))
    }
}

fn digit_of(d: u32) -> (c: char)
    requires
        d < 10,
    ensures
        c == digit_char(d as int),
{
    let b: u8 = (0x30 + d) as u8;
    b as char
}

/// Appends the decimal rendering of `n`.
pub fn push_decimal(out: &mut Vec<char>, n: u32)
    ensures
        final(out)@ == old(out)@ + decimal(n as nat),
    decreases n,
{
    if n >= 10 {
        push_decimal(out, n / 10);
    }
    out.push(digit_of(n % 10));
}

/// Appends `lit`'s characters.
pub fn push_str(out: &mut Vec<char>, lit: &str)
    ensures
        final(out)@ == old(out)@ + lit@,
{
    let p = chars_of(lit);
    let ghost o = out@;
    let mut i: usize = 0;
    while i < p.len()
        invariant
            i <= p.len(),
            out@ == o + p@.take(i as int),
        decreases p.len() - i,
    {
        out.push(p[i]);
        assert(p@.take(i + 1) == p@.take(i as int).push(p@[i as int]));
        i = i + 1;
    }
    assert(p@.take(p.len() as int) == p@);
}

/// Length of the first line of `s`: up to the first `\n`, or all of `s`.
pub open spec fn line_end(s: Seq<char>) -> nat
    decreases s.len(),
{
    if s.len() == 0 || s[0] == '\n' {
        0
    } else {
        1 + line_end(s.drop_first())
    }
}

/// The first line of `s` with its line ending (`\n` or `\r\n`) taken off.
pub open spec fn first_line(s: Seq<char>) -> Seq<char> {
    let e = line_end(s) as int;
    if e < s.len() && e > 0 && s[e - 1] == '\r' {
        s.take(e - 1)
    } else {
        s.take(e)
    }
}

/// `str::lines`: the lines of `s` without their endings; a final line
/// ending does not start an empty line.
pub open spec fn lines_of(s: Seq<char>) -> Seq<Seq<char>>
    decreases s.len(),
{
    if s.len() == 0 {
        seq![]
    } else if line_end(s) < s.len() {
        seq![first_line(s)] + lines_of(s.skip(line_end(s) as int + 1))
    } else {
        seq![first_line(s)]
    }
}

proof fn lemma_line_end_exact(s: Seq<char>, k: int)
    requires
        0 <= k <= s.len(),
        forall|i: int| 0 <= i < k ==> #[trigger] s[i] != '\n',
        k < s.len() ==> s[k] == '\n',
    ensures
        line_end(s) == k,
    decreases s.len(),
{
    if k > 0 {
        lemma_line_end_exact(s.drop_first(), k - 1);
    }
}

/// Splits text into lines as `str::lines` does.
pub fn split_lines(s: &Vec<char>) -> (r: Vec<Vec<char>>)
    ensures
        r@.len() == lines_of(s@).len(),
        forall|i: int| 0 <= i < r@.len() ==> (#[trigger] r@[i])@ == lines_of(s@)[i],
{
    let mut r: Vec<Vec<char>> = Vec::new();
    let ghost mut done: Seq<Seq<char>> = seq![];
    let mut start: usize = 0;
    assert(s@.skip(0) =~= s@);
    while start < s.len()
        invariant
            start <= s.len(),
            r@.len() == done.len(),
            forall|i: int| 0 <= i < r@.len() ==> (#[trigger] r@[i])@ == done[i],
            lines_of(s@) == done + lines_of(s@.skip(start as int)),
        decreases s.len() - start,
    {
        let ghost t = s@.skip(start as int);
        let mut e = start;
        while e < s.len() && s[e] != '\n'
            invariant
                start <= e <= s.len(),
                forall|i: int| start <= i < e ==> #[trigger] s@[i] != '\n',
            decreases s.len() - e,
        {
            e = e + 1;
        }
        proof {
            lemma_line_end_exact(t, e - start);
        }
        let cut = if e < s.len() && e > start && s[e - 1] == '\r' { e - 1 } else { e };
        let line = slice_chars(s, start, cut);
        assert(line@ == first_line(t));
        r.push(line);
        proof {
            done = done.push(first_line(t));
        }
        if e < s.len() {
            assert(t.skip(e - start + 1) =~= s@.skip(e + 1));
            assert(lines_of(t) == seq![first_line(t)] + lines_of(s@.skip(e + 1)));
            assert(done.drop_last() + seq![first_line(t)] =~= done);
            assert(lines_of(s@) =~= done + lines_of(s@.skip(e + 1)));
            start = e + 1;
        } else {
            assert(lines_of(t) == seq![first_line(t)]);
            assert(s@.skip(s.len() as int) =~= Seq::<char>::empty());
            assert(lines_of(s@) =~= done + lines_of(s@.skip(s.len() as int)));
            start = s.len();
        }
    }
    assert(s@.skip(start as int) =~= Seq::<char>::empty());
    assert(lines_of(s@) =~= done);
    r
}

} // verus!
