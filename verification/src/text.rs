//! Character-sequence helpers that mirror the `str` operations the endpoints rely on.
use vstd::prelude::*;

verus! {

/// Appends one character to a string (`String::push`).
#[verifier::external_body]
fn push_char(s: &mut String, c: char)
    ensures
        final(s)@ == old(s)@.push(c),
{
    s.push(c);
}

/// The characters of a string slice, in order.
pub fn chars_of(s: &str) -> (r: Vec<char>)
    ensures
        r@ == s@,
{
    let mut r: Vec<char> = Vec::new();
    for c in it: s.chars()
        invariant
            it.seq() == s@,
            r@ == it.seq().take(it.index()),
    {
        r.push(c);
    }
    r
}

/// A string holding the given characters.
pub fn string_of(v: &[char]) -> (r: String)
    ensures
        r@ == v@,
{
    let mut r = String::new();
    let mut i: usize = 0;
    while i < v.len()
        invariant
            i <= v.len(),
            r@ == v@.take(i as int),
        decreases v.len() - i,
    {
        push_char(&mut r, v[i]);
        assert(v@.take(i as int).push(v@[i as int]) =~= v@.take(i + 1));
        i += 1;
    }
    assert(v@.take(v.len() as int) =~= v@);
    r
}

} // verus!

verus! {

// ---------------------------------------------------------------------------
// Specifications
// ---------------------------------------------------------------------------

/// `char::is_whitespace`: the Unicode `White_Space` property.
pub open spec fn is_ws(c: char) -> bool {
    let v = c as u32;
    (9 <= v && v <= 13) || v == 32 || v == 0x85 || v == 0xa0 || v == 0x1680
        || (0x2000 <= v && v <= 0x200a) || v == 0x2028 || v == 0x2029 || v == 0x202f
        || v == 0x205f || v == 0x3000
}

/// Index of the first non-whitespace character at or after `i`.
pub open spec fn skip_ws(s: Seq<char>, i: int) -> int
    decreases s.len() - i,
{
    if 0 <= i < s.len() && is_ws(s[i]) {
        skip_ws(s, i + 1)
    } else {
        i
    }
}

/// End of the range `lo..j` once trailing whitespace is dropped.
pub open spec fn drop_trailing_ws(s: Seq<char>, lo: int, j: int) -> int
    decreases j - lo,
{
    if lo < j && j <= s.len() && is_ws(s[j - 1]) {
        drop_trailing_ws(s, lo, j - 1)
    } else {
        j
    }
}

/// `str::trim`.
pub open spec fn trim(s: Seq<char>) -> Seq<char> {
    let a = skip_ws(s, 0);
    s.subrange(a, drop_trailing_ws(s, a, s.len() as int))
}

/// Index of the first whitespace character at or after `i`.
pub open spec fn word_end(s: Seq<char>, i: int) -> int
    decreases s.len() - i,
{
    if 0 <= i < s.len() && !is_ws(s[i]) {
        word_end(s, i + 1)
    } else {
        i
    }
}

/// `s.split_whitespace().next().unwrap_or("")`.
pub open spec fn first_word(s: Seq<char>) -> Seq<char> {
    let a = skip_ws(s, 0);
    s.subrange(a, word_end(s, a))
}

/// The text after its first word (`s` with its first word and the whitespace before it removed).
pub open spec fn after_first_word(s: Seq<char>) -> Seq<char> {
    s.skip(word_end(s, skip_ws(s, 0)))
}

/// The second whitespace-separated word of a text, or the empty text.
pub open spec fn second_word(s: Seq<char>) -> Seq<char> {
    first_word(after_first_word(s))
}

/// Position of the first occurrence of `p` in `s` at or after `i`.
pub open spec fn find_from(s: Seq<char>, p: Seq<char>, i: int) -> Option<int>
    decreases s.len() - i,
{
    if i < 0 || i + p.len() > s.len() {
        None
    } else if s.subrange(i, i + p.len()) == p {
        Some(i)
    } else {
        proof {
            if p.len() == 0 {
                assert(s.subrange(i, i) =~= p);
            }
        }
        find_from(s, p, i + 1)
    }
}

/// `str::contains`.
pub open spec fn contains(s: Seq<char>, p: Seq<char>) -> bool {
    find_from(s, p, 0) is Some
}

/// `str::split_once`.
pub open spec fn split_once(s: Seq<char>, p: Seq<char>) -> Option<(Seq<char>, Seq<char>)> {
    match find_from(s, p, 0) {
        Some(i) => Some((s.take(i), s.skip(i + p.len()))),
        None => None,
    }
}

/// `s.split(c).next().unwrap()`: everything before the first `c`.
pub open spec fn first_segment(s: Seq<char>, c: char) -> Seq<char> {
    match find_from(s, seq![c], 0) {
        Some(i) => s.take(i),
        None => s,
    }
}

/// `str::starts_with`.
pub open spec fn starts_with(s: Seq<char>, p: Seq<char>) -> bool {
    p.len() <= s.len() && s.take(p.len() as int) == p
}

/// `str::ends_with`.
pub open spec fn ends_with(s: Seq<char>, p: Seq<char>) -> bool {
    p.len() <= s.len() && s.skip(s.len() - p.len()) == p
}

/// `char::to_ascii_lowercase`, as a code point.
pub open spec fn ascii_lower(c: char) -> u32 {
    let v = c as u32;
    if 65 <= v && v <= 90 {
        (v + 32) as u32
    } else {
        v
    }
}

/// `str::eq_ignore_ascii_case`.
pub open spec fn eq_ignore_ascii_case(a: Seq<char>, b: Seq<char>) -> bool {
    a.len() == b.len() && forall|i: int| 0 <= i < a.len() ==> ascii_lower(a[i]) == ascii_lower(b[i])
}

/// Strict lexicographic order by code point (the order of `String`).
pub open spec fn lex_lt(a: Seq<char>, b: Seq<char>) -> bool
    decreases a.len(),
{
    if a.len() == 0 {
        b.len() > 0
    } else if b.len() == 0 {
        false
    } else if (a[0] as u32) < (b[0] as u32) {
        true
    } else if a[0] == b[0] {
        lex_lt(a.drop_first(), b.drop_first())
    } else {
        false
    }
}

/// The character of a digit in base 16 (lower case), and so in base 10.
pub open spec fn digit(d: int) -> char {
    if d == 0 { '0' } else if d == 1 { '1' } else if d == 2 { '2' } else if d == 3 { '3' }
    else if d == 4 { '4' } else if d == 5 { '5' } else if d == 6 { '6' } else if d == 7 { '7' }
    else if d == 8 { '8' } else if d == 9 { '9' } else if d == 10 { 'a' } else if d == 11 { 'b' }
    else if d == 12 { 'c' } else if d == 13 { 'd' } else if d == 14 { 'e' } else { 'f' }
}

/// Digits of `n` in base `b` (2 <= b <= 16), most significant first, no leading zeros.
pub open spec fn in_base(n: nat, b: nat) -> Seq<char>
    decreases n,
{
    if b < 2 || n < b {
        seq![digit(n as int)]
    } else {
        proof {
            assert(n / b < n) by (nonlinear_arith)
                requires
                    b >= 2,
                    n >= b,
            ;
        }
        in_base(n / b, b).push(digit((n % b) as int))
    }
}

/// `n.to_string()`.
pub open spec fn decimal(n: nat) -> Seq<char> {
    in_base(n, 10)
}

/// `format!("{:x}", n)`.
pub open spec fn hex(n: nat) -> Seq<char> {
    in_base(n, 16)
}

// ---------------------------------------------------------------------------
// Executable counterparts
// ---------------------------------------------------------------------------

/// `char::is_whitespace`.
pub fn is_whitespace(c: char) -> (r: bool)
    ensures
        r == is_ws(c),
{
    let v = c as u32;
    (9 <= v && v <= 13) || v == 32 || v == 0x85 || v == 0xa0 || v == 0x1680
        || (0x2000 <= v && v <= 0x200a) || v == 0x2028 || v == 0x2029 || v == 0x202f
        || v == 0x205f || v == 0x3000
}

/// The characters `v[a..b]`.
pub fn slice_chars(v: &[char], a: usize, b: usize) -> (r: Vec<char>)
    requires
        a <= b <= v.len(),
    ensures
        r@ == v@.subrange(a as int, b as int),
{
    let mut r: Vec<char> = Vec::new();
    let mut i = a;
    while i < b
        invariant
            a <= i <= b <= v.len(),
            r@ == v@.subrange(a as int, i as int),
        decreases b - i,
    {
        r.push(v[i]);
        assert(v@.subrange(a as int, i as int).push(v@[i as int]) =~= v@.subrange(a as int, i + 1));
        i += 1;
    }
    r
}

/// `str::trim`.
pub fn trim_chars(v: &[char]) -> (r: Vec<char>)
    ensures
        r@ == trim(v@),
{
    let mut a: usize = 0;
    while a < v.len() && is_whitespace(v[a])
        invariant
            a <= v.len(),
            skip_ws(v@, a as int) == skip_ws(v@, 0),
        decreases v.len() - a,
    {
        a += 1;
    }
    let mut b: usize = v.len();
    while b > a && is_whitespace(v[b - 1])
        invariant
            a <= b <= v.len(),
            skip_ws(v@, 0) == a,
            drop_trailing_ws(v@, a as int, b as int) == drop_trailing_ws(v@, a as int, v.len() as int),
        decreases b,
    {
        b -= 1;
    }
    slice_chars(v, a, b)
}

/// `s.split_whitespace().next().unwrap_or("")`.
pub fn first_word_chars(v: &[char]) -> (r: Vec<char>)
    ensures
        r@ == first_word(v@),
{
    let mut a: usize = 0;
    while a < v.len() && is_whitespace(v[a])
        invariant
            a <= v.len(),
            skip_ws(v@, a as int) == skip_ws(v@, 0),
        decreases v.len() - a,
    {
        a += 1;
    }
    let mut b: usize = a;
    while b < v.len() && !is_whitespace(v[b])
        invariant
            a <= b <= v.len(),
            skip_ws(v@, 0) == a,
            word_end(v@, b as int) == word_end(v@, a as int),
        decreases v.len() - b,
    {
        b += 1;
    }
    slice_chars(v, a, b)
}

/// The characters after the first word.
pub fn after_first_word_chars(v: &[char]) -> (r: Vec<char>)
    ensures
        r@ == after_first_word(v@),
{
    let mut a: usize = 0;
    while a < v.len() && is_whitespace(v[a])
        invariant
            a <= v.len(),
            skip_ws(v@, a as int) == skip_ws(v@, 0),
        decreases v.len() - a,
    {
        a += 1;
    }
    let mut b: usize = a;
    while b < v.len() && !is_whitespace(v[b])
        invariant
            a <= b <= v.len(),
            skip_ws(v@, 0) == a,
            word_end(v@, b as int) == word_end(v@, a as int),
        decreases v.len() - b,
    {
        b += 1;
    }
    let r = slice_chars(v, b, v.len());
    assert(r@ =~= v@.skip(b as int));
    r
}

/// Whether `p` occurs in `v` at position `i`.
pub fn matches_at(v: &[char], p: &[char], i: usize) -> (r: bool)
    requires
        i + p.len() <= v.len(),
    ensures
        r == (v@.subrange(i as int, i + p.len()) == p@),
{
    let mut k: usize = 0;
    while k < p.len()
        invariant
            i + p.len() <= v.len(),
            k <= p.len(),
            forall|j: int| 0 <= j < k ==> v@[i + j] == p@[j],
        decreases p.len() - k,
    {
        if v[i + k] != p[k] {
            assert(v@.subrange(i as int, i + p.len())[k as int] != p@[k as int]);
            return false;
        }
        k += 1;
    }
    assert(v@.subrange(i as int, i + p.len()) =~= p@);
    true
}

/// First position of `p` in `v`.
pub fn find(v: &[char], p: &[char]) -> (r: Option<usize>)
    ensures
        r matches Some(i) ==> find_from(v@, p@, 0) == Some(i as int) && i + p.len() <= v.len(),
        r is None ==> find_from(v@, p@, 0) is None,
{
    if p.len() > v.len() {
        return None;
    }
    if p.len() == 0 {
        assert(v@.subrange(0, 0) =~= p@);
        return Some(0);
    }
    let mut i: usize = 0;
    while i <= v.len() - p.len()
        invariant
            1 <= p.len() <= v.len(),
            i <= v.len() - p.len() + 1,
            find_from(v@, p@, i as int) == find_from(v@, p@, 0),
        decreases v.len() - i,
    {
        if matches_at(v, p, i) {
            return Some(i);
        }
        i += 1;
    }
    None
}

/// `str::contains`.
pub fn contains_chars(v: &[char], p: &[char]) -> (r: bool)
    ensures
        r == contains(v@, p@),
{
    find(v, p).is_some()
}

/// `str::split_once`.
pub fn split_once_chars(v: &[char], p: &[char]) -> (r: Option<(Vec<char>, Vec<char>)>)
    ensures
        r matches Some(pair) ==> split_once(v@, p@) == Some((pair.0@, pair.1@)),
        r is None ==> split_once(v@, p@) is None,
{
    match find(v, p) {
        Some(i) => {
            proof { find_from_bounds(v@, p@, 0); }
            let a = slice_chars(v, 0, i);
            let b = slice_chars(v, i + p.len(), v.len());
            assert(a@ =~= v@.take(i as int));
            assert(b@ =~= v@.skip(i + p.len()));
            Some((a, b))
        }
        None => None,
    }
}

/// `s.split(c).next().unwrap()`.
pub fn first_segment_chars(v: &[char], c: char) -> (r: Vec<char>)
    ensures
        r@ == first_segment(v@, c),
{
    let p = [c];
    assert(p@ =~= seq![c]);
    match find(v, &p) {
        Some(i) => {
            proof { find_from_bounds(v@, seq![c], 0); }
            let a = slice_chars(v, 0, i);
            assert(a@ =~= v@.take(i as int));
            a
        }
        None => {
            let a = slice_chars(v, 0, v.len());
            assert(a@ =~= v@);
            a
        }
    }
}

/// `str::starts_with`.
pub fn starts_with_chars(v: &[char], p: &[char]) -> (r: bool)
    ensures
        r == starts_with(v@, p@),
{
    if p.len() > v.len() {
        return false;
    }
    let r = matches_at(v, p, 0);
    assert(v@.subrange(0, p.len() as int) =~= v@.take(p.len() as int));
    r
}

/// `str::ends_with`.
pub fn ends_with_chars(v: &[char], p: &[char]) -> (r: bool)
    ensures
        r == ends_with(v@, p@),
{
    if p.len() > v.len() {
        return false;
    }
    let r = matches_at(v, p, v.len() - p.len());
    assert(v@.subrange(v.len() - p.len(), v.len() as int) =~= v@.skip(v.len() - p.len()));
    r
}

/// Equality of two character sequences.
pub fn eq_chars(a: &[char], b: &[char]) -> (r: bool)
    ensures
        r == (a@ == b@),
{
    if a.len() != b.len() {
        return false;
    }
    let r = matches_at(a, b, 0);
    assert(a@.subrange(0, b.len() as int) =~= a@);
    r
}

/// `char::to_ascii_lowercase`, as a code point.
fn lower_code(c: char) -> (r: u32)
    ensures
        r == ascii_lower(c),
{
    let v = c as u32;
    if 65 <= v && v <= 90 {
        v + 32
    } else {
        v
    }
}

/// `str::eq_ignore_ascii_case`.
pub fn eq_ignore_ascii_case_chars(a: &[char], b: &[char]) -> (r: bool)
    ensures
        r == eq_ignore_ascii_case(a@, b@),
{
    if a.len() != b.len() {
        return false;
    }
    let mut i: usize = 0;
    while i < a.len()
        invariant
            a.len() == b.len(),
            i <= a.len(),
            forall|j: int| 0 <= j < i ==> ascii_lower(a@[j]) == ascii_lower(b@[j]),
        decreases a.len() - i,
    {
        if lower_code(a[i]) != lower_code(b[i]) {
            return false;
        }
        i += 1;
    }
    true
}

/// Strict lexicographic comparison by code point.
pub fn lex_less(a: &[char], b: &[char]) -> (r: bool)
    ensures
        r == lex_lt(a@, b@),
{
    let mut i: usize = 0;
    assert(a@.skip(0) =~= a@);
    assert(b@.skip(0) =~= b@);
    while i < a.len() && i < b.len()
        invariant
            i <= a.len(),
            i <= b.len(),
            lex_lt(a@, b@) == lex_lt(a@.skip(i as int), b@.skip(i as int)),
        decreases a.len() - i,
    {
        proof {
            lemma_lex_lt_step(a@.skip(i as int), b@.skip(i as int));
            assert(a@.skip(i as int).drop_first() =~= a@.skip(i + 1));
            assert(b@.skip(i as int).drop_first() =~= b@.skip(i + 1));
        }
        if a[i] != b[i] {
            let x = a[i] as u32;
            let y = b[i] as u32;
            return x < y;
        }
        i += 1;
    }
    proof {
        if i == a.len() {
            assert(a@.skip(i as int).len() == 0);
        } else {
            assert(b@.skip(i as int).len() == 0);
        }
    }
    i < b.len()
}

proof fn lemma_lex_lt_step(a: Seq<char>, b: Seq<char>)
    requires
        a.len() > 0,
        b.len() > 0,
    ensures
        lex_lt(a, b) == if (a[0] as u32) < (b[0] as u32) {
            true
        } else if a[0] == b[0] {
            lex_lt(a.drop_first(), b.drop_first())
        } else {
            false
        },
{
}

/// A found position leaves room for the pattern.
pub proof fn find_from_bounds(s: Seq<char>, p: Seq<char>, i: int)
    ensures
        find_from(s, p, i) matches Some(k) ==> i <= k && k + p.len() <= s.len() && s.subrange(k, k + p.len()) == p,
    decreases s.len() - i,
{
    if i < 0 || i + p.len() > s.len() {
    } else if s.subrange(i, i + p.len()) == p {
    } else {
        assert(p.len() > 0) by {
            if p.len() == 0 {
                assert(s.subrange(i, i) =~= p);
            }
        }
        find_from_bounds(s, p, i + 1);
    }
}

/// The digit character of `d < 16`.
fn digit_char(d: u64) -> (r: char)
    requires
        d < 16,
    ensures
        r == digit(d as int),
{
    match d {
        0 => '0', 1 => '1', 2 => '2', 3 => '3', 4 => '4', 5 => '5', 6 => '6', 7 => '7',
        8 => '8', 9 => '9', 10 => 'a', 11 => 'b', 12 => 'c', 13 => 'd', 14 => 'e', _ => 'f',
    }
}

/// Digits of `n` in base `base`.
fn in_base_chars(n: u64, base: u64) -> (r: Vec<char>)
    requires
        2 <= base <= 16,
    ensures
        r@ == in_base(n as nat, base as nat),
{
    let mut v: Vec<char> = Vec::new();
    let mut m = n;
    while m >= base
        invariant
            2 <= base <= 16,
            in_base(n as nat, base as nat) == in_base(m as nat, base as nat) + v@,
        decreases m,
    {
        let d = digit_char(m % base);
        let ghost prev = v@;
        v.insert(0, d);
        proof {
            assert(in_base(m as nat, base as nat) == in_base((m / base) as nat, base as nat).push(d));
            assert(v@ =~= seq![d] + prev);
            assert(in_base((m / base) as nat, base as nat).push(d) + prev =~= in_base((m / base) as nat, base as nat) + v@);
        }
        m = m / base;
    }
    let d = digit_char(m);
    let ghost prev = v@;
    v.insert(0, d);
    assert(v@ =~= seq![d] + prev);
    v
}

/// `n.to_string()`.
pub fn decimal_string(n: u64) -> (r: String)
    ensures
        r@ == decimal(n as nat),
{
    string_of(&in_base_chars(n, 10))
}

/// `format!("{:x}", n)`.
pub fn hex_string(n: u64) -> (r: String)
    ensures
        r@ == hex(n as nat),
{
    string_of(&in_base_chars(n, 16))
}

} // verus!

verus! {

/// What `str::to_uppercase` returns for a text (Unicode upper-case mapping).
pub uninterp spec fn uppercase(s: Seq<char>) -> Seq<char>;

/// Calls `str::to_uppercase`; its result is `uppercase` of the argument, nothing
/// more is claimed of the Unicode case mapping.
#[verifier::external_body]
pub(crate) fn to_uppercase(s: &str) -> (r: String)
    ensures
        r@ == uppercase(s@),
{
    s.to_uppercase()
}

/// `Option<String>` taken by its characters.
pub open spec fn opt_chars(o: Option<String>) -> Option<Seq<char>> {
    match o {
        Some(s) => Some(s@),
        None => None,
    }
}

} // verus!

verus! {

/// No text is before itself.
pub proof fn lemma_lex_lt_irreflexive(a: Seq<char>)
    ensures
        !lex_lt(a, a),
    decreases a.len(),
{
    if a.len() > 0 {
        lemma_lex_lt_irreflexive(a.drop_first());
    }
}

/// The order of texts is transitive.
pub proof fn lemma_lex_lt_transitive(a: Seq<char>, b: Seq<char>, c: Seq<char>)
    requires
        lex_lt(a, b),
        lex_lt(b, c),
    ensures
        lex_lt(a, c),
    decreases a.len(),
{
    if a.len() > 0 && b.len() > 0 && c.len() > 0 && a[0] == b[0] && b[0] == c[0] {
        lemma_lex_lt_transitive(a.drop_first(), b.drop_first(), c.drop_first());
    }
}

/// Of two different texts, one is before the other.
pub proof fn lemma_lex_lt_total(a: Seq<char>, b: Seq<char>)
    requires
        a != b,
    ensures
        lex_lt(a, b) || lex_lt(b, a),
    decreases a.len(),
{
    if a.len() > 0 && b.len() > 0 && a[0] == b[0] {
        if a.drop_first() == b.drop_first() {
            assert(a =~= seq![a[0]] + a.drop_first());
            assert(b =~= seq![b[0]] + b.drop_first());
        }
        lemma_lex_lt_total(a.drop_first(), b.drop_first());
    } else if a.len() == 0 && b.len() == 0 {
        assert(a =~= b);
    } else if a.len() > 0 && b.len() > 0 {
        let x = a[0];
        let y = b[0];
        vstd::utf8::char_u32_cast(x, x as u32);
        vstd::utf8::char_u32_cast(y, y as u32);
        assert((x as u32) != (y as u32));
    }
}

/// The texts of a list of strings.
pub open spec fn texts(v: Seq<String>) -> Seq<Seq<char>> {
    v.map_values(|s: String| s@)
}

/// Each text is before the next: the list is sorted and holds no text twice.
pub open spec fn strictly_sorted(v: Seq<Seq<char>>) -> bool {
    forall|i: int, j: int| 0 <= i < j < v.len() ==> lex_lt(v[i], v[j])
}

/// Inserts a text into a strictly sorted list, unless it is there already
/// (`BTreeSet::insert` on strings).
pub fn insert_sorted(v: &mut Vec<String>, s: String)
    requires
        strictly_sorted(texts(old(v)@)),
    ensures
        strictly_sorted(texts(final(v)@)),
        texts(final(v)@).to_set() == texts(old(v)@).to_set().insert(s@),
{
    let ghost old_t = texts(v@);
    let sc = chars_of(s.as_str());
    let mut k: usize = 0;
    while k < v.len() && lex_less(&chars_of(v[k].as_str()), &sc)
        invariant
            k <= v.len(),
            v@ == old(v)@,
            sc@ == s@,
            old_t == texts(v@),
            forall|i: int| 0 <= i < k ==> lex_lt(old_t[i], s@),
        decreases v.len() - k,
    {
        k += 1;
    }
    if k < v.len() && eq_chars(&chars_of(v[k].as_str()), &sc) {
        assert(old_t.to_set().insert(s@) =~= old_t.to_set()) by {
            assert(old_t[k as int] == s@);
        }
        return;
    }
    proof {
        if k < v.len() {
            assert(!lex_lt(old_t[k as int], s@));
            lemma_lex_lt_total(old_t[k as int], s@);
        }
    }
    v.insert(k, s);
    let ghost new_t = texts(v@);
    proof {
        assert(new_t =~= old_t.take(k as int).push(s@) + old_t.skip(k as int));
        assert forall|i: int, j: int| 0 <= i < j < new_t.len() implies lex_lt(new_t[i], new_t[j]) by {
            if j < k {
            } else if j == k {
            } else if i < k {
                assert(new_t[j] == old_t[j - 1]);
                assert(lex_lt(old_t[i], s@));
                assert(lex_lt(s@, old_t[k as int]));
                if j - 1 > k {
                    lemma_lex_lt_transitive(s@, old_t[k as int], old_t[j - 1]);
                }
                lemma_lex_lt_transitive(old_t[i], s@, old_t[j - 1]);
            } else if i == k {
                if j - 1 > k {
                    lemma_lex_lt_transitive(s@, old_t[k as int], old_t[j - 1]);
                }
            } else {
                assert(new_t[i] == old_t[i - 1]);
                assert(new_t[j] == old_t[j - 1]);
            }
        }
        assert forall|x: Seq<char>| new_t.to_set().contains(x) <==> old_t.to_set().insert(s@).contains(x) by {
            if new_t.to_set().contains(x) {
                let i = choose|i: int| 0 <= i < new_t.len() && new_t[i] == x;
                if i < k {
                    assert(old_t[i] == x);
                } else if i > k {
                    assert(old_t[i - 1] == x);
                }
            }
            if old_t.to_set().contains(x) && x != s@ {
                let i = choose|i: int| 0 <= i < old_t.len() && old_t[i] == x;
                if i < k {
                    assert(new_t[i] == x);
                } else {
                    assert(new_t[i + 1] == x);
                }
            }
            if x == s@ {
                assert(new_t[k as int] == x);
            }
        }
        assert(new_t.to_set() =~= old_t.to_set().insert(s@));
    }
}

} // verus!

verus! {

/// The concatenation of two texts.
pub fn cat(a: &str, b: &str) -> (r: String)
    ensures
        r@ == a@ + b@,
{
    let mut v = chars_of(a);
    let mut w = chars_of(b);
    v.append(&mut w);
    string_of(&v)
}

/// The concatenation of three texts.
pub fn cat3(a: &str, b: &str, c: &str) -> (r: String)
    ensures
        r@ == a@ + b@ + c@,
{
    let ab = cat(a, b);
    cat(ab.as_str(), c)
}

} // verus!

verus! {

/// The number of bytes UTF-8 takes for a character.
pub open spec fn utf8_width(c: char) -> nat {
    let v = c as u32;
    if v < 0x80 {
        1
    } else if v < 0x800 {
        2
    } else if v < 0x10000 {
        3
    } else {
        4
    }
}

/// The length of a text in UTF-8 bytes (`str::len`).
pub open spec fn utf8_len(s: Seq<char>) -> nat
    decreases s.len(),
{
    if s.len() == 0 {
        0
    } else {
        utf8_len(s.drop_last()) + utf8_width(s.last())
    }
}

/// Whether a text takes at most `max` bytes in UTF-8.
pub fn utf8_len_at_most(v: &[char], max: usize) -> (r: bool)
    ensures
        r == (utf8_len(v@) <= max),
{
    let mut total: usize = 0;
    let mut i: usize = 0;
    while i < v.len()
        invariant
            i <= v.len(),
            total == utf8_len(v@.take(i as int)),
            total <= max,
        decreases v.len() - i,
    {
        let c = v[i] as u32;
        let w: usize = if c < 0x80 {
            1
        } else if c < 0x800 {
            2
        } else if c < 0x10000 {
            3
        } else {
            4
        };
        assert(v@.take(i + 1).drop_last() =~= v@.take(i as int));
        if w > max - total {
            proof { lemma_utf8_len_prefix(v@, i + 1); }
            return false;
        }
        total = total + w;
        i += 1;
    }
    assert(v@.take(v.len() as int) =~= v@);
    true
}

/// A prefix takes no more bytes than the whole text.
pub proof fn lemma_utf8_len_prefix(s: Seq<char>, i: int)
    requires
        0 <= i <= s.len(),
    ensures
        utf8_len(s.take(i)) <= utf8_len(s),
    decreases s.len() - i,
{
    if i < s.len() {
        lemma_utf8_len_prefix(s, i + 1);
        assert(s.take(i + 1).drop_last() =~= s.take(i));
    } else {
        assert(s.take(i) =~= s);
    }
}

} // verus!

verus! {

/// Skipping whitespace stops at the first character that is not whitespace.
pub proof fn lemma_skip_ws(s: Seq<char>, i: int)
    requires
        0 <= i <= s.len(),
    ensures
        i <= skip_ws(s, i) <= s.len(),
        forall|j: int| i <= j < skip_ws(s, i) ==> is_ws(#[trigger] s[j]),
        skip_ws(s, i) < s.len() ==> !is_ws(s[skip_ws(s, i)]),
    decreases s.len() - i,
{
    if i < s.len() && is_ws(s[i]) {
        lemma_skip_ws(s, i + 1);
    }
}

/// Dropping trailing whitespace stops after the last character that is not whitespace.
pub proof fn lemma_drop_trailing_ws(s: Seq<char>, lo: int, j: int)
    requires
        0 <= lo <= j <= s.len(),
    ensures
        lo <= drop_trailing_ws(s, lo, j) <= j,
        drop_trailing_ws(s, lo, j) > lo ==> !is_ws(s[drop_trailing_ws(s, lo, j) - 1]),
    decreases j - lo,
{
    if lo < j && is_ws(s[j - 1]) {
        lemma_drop_trailing_ws(s, lo, j - 1);
    }
}

/// The first occurrence from `i` is at `k` when the pattern stands at `k` and
/// nowhere between `i` and `k`.
pub proof fn lemma_find_at(s: Seq<char>, p: Seq<char>, i: int, k: int)
    requires
        0 <= i <= k,
        k + p.len() <= s.len(),
        s.subrange(k, k + p.len()) == p,
        forall|j: int| i <= j < k ==> #[trigger] s.subrange(j, j + p.len()) != p,
    ensures
        find_from(s, p, i) == Some(k),
    decreases k - i,
{
    if i < k {
        assert(s.subrange(i, i + p.len()) != p);
        lemma_find_at(s, p, i + 1, k);
    }
}

/// No occurrence is found from `i` exactly when the pattern stands nowhere from `i` on.
pub proof fn lemma_find_none(s: Seq<char>, p: Seq<char>, i: int)
    requires
        0 <= i,
    ensures
        find_from(s, p, i) is None <==> forall|j: int| i <= j && j + p.len() <= s.len() ==> #[trigger] s.subrange(j, j + p.len()) != p,
    decreases s.len() - i,
{
    if i + p.len() > s.len() {
    } else if s.subrange(i, i + p.len()) == p {
    } else {
        assert(p.len() > 0) by {
            if p.len() == 0 {
                assert(s.subrange(i, i) =~= p);
            }
        }
        lemma_find_none(s, p, i + 1);
        if find_from(s, p, i + 1) is None {
            assert forall|j: int| i <= j && j + p.len() <= s.len() implies #[trigger] s.subrange(j, j + p.len()) != p by {
                if j > i {
                    assert(s.subrange(j, j + p.len()) != p);
                }
            }
        } else {
            let j = choose|j: int| i + 1 <= j && j + p.len() <= s.len() && #[trigger] s.subrange(j, j + p.len()) == p;
            assert(i <= j);
        }
    }
}

/// Before the first occurrence, the pattern stands nowhere.
pub proof fn lemma_find_first(s: Seq<char>, p: Seq<char>, i: int)
    requires
        0 <= i,
        find_from(s, p, i) is Some,
    ensures
        forall|j: int| i <= j < find_from(s, p, i)->0 ==> #[trigger] s.subrange(j, j + p.len()) != p,
    decreases s.len() - i,
{
    if i + p.len() > s.len() {
    } else if s.subrange(i, i + p.len()) == p {
    } else {
        assert(p.len() > 0) by {
            if p.len() == 0 {
                assert(s.subrange(i, i) =~= p);
            }
        }
        lemma_find_first(s, p, i + 1);
    }
}

/// A text holds a character exactly when some position holds it.
pub proof fn lemma_contains_char(s: Seq<char>, c: char)
    ensures
        contains(s, seq![c]) <==> exists|j: int| 0 <= j < s.len() && s[j] == c,
{
    lemma_find_none(s, seq![c], 0);
    if contains(s, seq![c]) {
        find_from_bounds(s, seq![c], 0);
        let k = find_from(s, seq![c], 0)->0;
        assert(s.subrange(k, k + 1)[0] == s[k]);
    } else {
        assert forall|j: int| 0 <= j < s.len() implies s[j] != c by {
            assert(s.subrange(j, j + 1) != seq![c]);
            if s[j] == c {
                assert(s.subrange(j, j + 1) =~= seq![c]);
            }
        }
    }
}

/// Trimming keeps exactly the part between leading and trailing whitespace.
pub proof fn lemma_trim_exact(s: Seq<char>, a: int, b: int)
    requires
        0 <= a < b <= s.len(),
        forall|j: int| 0 <= j < a ==> is_ws(#[trigger] s[j]),
        !is_ws(s[a]),
        !is_ws(s[b - 1]),
        forall|j: int| b <= j < s.len() ==> is_ws(#[trigger] s[j]),
    ensures
        trim(s) == s.subrange(a, b),
{
    lemma_skip_to(s, 0, a);
    lemma_drop_to(s, a, b, s.len() as int);
}

proof fn lemma_skip_to(s: Seq<char>, i: int, a: int)
    requires
        0 <= i <= a < s.len(),
        forall|j: int| 0 <= j < a ==> is_ws(#[trigger] s[j]),
        !is_ws(s[a]),
    ensures
        skip_ws(s, i) == a,
    decreases a - i,
{
    if i < a {
        assert(is_ws(s[i]));
        lemma_skip_to(s, i + 1, a);
    }
}

proof fn lemma_drop_to(s: Seq<char>, a: int, b: int, j: int)
    requires
        0 <= a < b <= j <= s.len(),
        !is_ws(s[b - 1]),
        forall|k: int| b <= k < s.len() ==> is_ws(#[trigger] s[k]),
    ensures
        drop_trailing_ws(s, a, j) == b,
    decreases j - b,
{
    if j > b {
        assert(is_ws(s[j - 1]));
        lemma_drop_to(s, a, b, j - 1);
    }
}

/// A trimmed text that is not empty starts and ends with a character that is not whitespace.
pub proof fn lemma_trim_ends(s: Seq<char>)
    ensures
        trim(s).len() > 0 ==> !is_ws(trim(s)[0]) && !is_ws(trim(s)[trim(s).len() - 1]),
{
    let a = skip_ws(s, 0);
    lemma_skip_ws(s, 0);
    lemma_drop_trailing_ws(s, a, s.len() as int);
}

} // verus!
