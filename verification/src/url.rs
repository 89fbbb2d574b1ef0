//! Query strings and path elements of management requests.
use crate::text::{chars_of, eq_chars};
use vstd::prelude::*;

verus! {

/// What `form_urlencoded::parse` yields for a text, as owned (name, value)
/// pairs: split at '&', names and values percent-decoded with '+' read as a space.
pub uninterp spec fn form_pairs(input: Seq<char>) -> Seq<(Seq<char>, Seq<char>)>;

/// A list of (name, value) string pairs taken by their characters.
pub open spec fn pair_texts(v: Seq<(String, String)>) -> Seq<(Seq<char>, Seq<char>)> {
    v.map_values(|p: (String, String)| (p.0@, p.1@))
}

/// Calls `form_urlencoded::parse(input.as_bytes()).into_owned()` and collects the
/// pairs; the contract names the result and states nothing of the decoding.
#[verifier::external_body]
fn parse_form(input: &str) -> (r: Vec<(String, String)>)
    ensures
        pair_texts(r@) == form_pairs(input@),
{
    form_urlencoded::parse(input.as_bytes()).into_owned().collect()
}

/// `decode_path_element`: the name of the first pair that form decoding finds
/// in a path element, or the element itself when it yields none.
pub open spec fn decoded_path_element(item: Seq<char>) -> Seq<char> {
    if form_pairs(item).len() > 0 {
        form_pairs(item)[0].0
    } else {
        item
    }
}

/// Decodes one percent-encoded element of a request path.
pub fn decode_path_element(item: &str) -> (r: String)
    ensures
        r@ == decoded_path_element(item@),
{
    let pairs = parse_form(item);
    if pairs.len() > 0 {
        pairs[0].0.clone()
    } else {
        item.to_owned()
    }
}

/// A pair has a non-empty value.
pub open spec fn has_value() -> spec_fn((Seq<char>, Seq<char>)) -> bool {
    |p: (Seq<char>, Seq<char>)| p.1.len() > 0
}

/// The pairs of a query string that `UrlParams` keeps: those with a value.
pub open spec fn kept_pairs(query: Option<Seq<char>>) -> Seq<(Seq<char>, Seq<char>)> {
    match query {
        Some(q) => form_pairs(q).filter(has_value()),
        None => Seq::empty(),
    }
}

/// The value of the last pair with the given name (a later pair replaces an earlier one).
pub open spec fn lookup(pairs: Seq<(Seq<char>, Seq<char>)>, key: Seq<char>) -> Option<Seq<char>>
    decreases pairs.len(),
{
    if pairs.len() == 0 {
        None
    } else if pairs.last().0 == key {
        Some(pairs.last().1)
    } else {
        lookup(pairs.drop_last(), key)
    }
}

/// The value of the last pair with the given name.
pub fn last_value(pairs: &Vec<(String, String)>, key: &str) -> (r: Option<String>)
    ensures
        opt_text(r) == lookup(pair_texts(pairs@), key@),
{
    let ghost t = pair_texts(pairs@);
    let k = chars_of(key);
    let mut i = pairs.len();
    assert(t.take(i as int) =~= t);
    while i > 0
        invariant
            i <= pairs.len(),
            k@ == key@,
            t == pair_texts(pairs@),
            lookup(t, key@) == lookup(t.take(i as int), key@),
        decreases i,
    {
        assert(t.take(i as int).drop_last() =~= t.take(i - 1));
        assert(t.take(i as int).last() == t[i - 1]);
        if eq_chars(&chars_of(pairs[i - 1].0.as_str()), &k) {
            return Some(pairs[i - 1].1.clone());
        }
        i -= 1;
    }
    None
}

/// The parameters of a request's query string.
pub struct UrlParams {
    pairs: Vec<(String, String)>,
}

impl View for UrlParams {
    type V = Seq<(Seq<char>, Seq<char>)>;

    closed spec fn view(&self) -> Seq<(Seq<char>, Seq<char>)> {
        pair_texts(self.pairs@)
    }
}

impl UrlParams {
    /// Reads the parameters of a query string, keeping those with a non-empty value.
    pub fn new(query: Option<&str>) -> (r: UrlParams)
        ensures
            r@ == kept_pairs(
                match query {
                    Some(q) => Some(q@),
                    None => None,
                },
            ),
    {
        match query {
            None => {
                let r = UrlParams { pairs: Vec::new() };
                assert(r@ =~= Seq::<(Seq<char>, Seq<char>)>::empty());
                r
            },
            Some(q) => {
                let all = parse_form(q);
                UrlParams::from_pairs(&all)
            },
        }
    }

    /// The parameters given by decoded (name, value) pairs, keeping those with a value.
    pub fn from_pairs(all: &Vec<(String, String)>) -> (r: UrlParams)
        ensures
            r@ == pair_texts(all@).filter(has_value()),
    {
        let mut pairs: Vec<(String, String)> = Vec::new();
        let mut i: usize = 0;
        while i < all.len()
            invariant
                i <= all.len(),
                pair_texts(pairs@) == pair_texts(all@).take(i as int).filter(has_value()),
            decreases all.len() - i,
        {
            let ghost t = pair_texts(all@);
            let ghost before = pairs@;
            assert(t.take(i + 1).drop_last() =~= t.take(i as int));
            assert(t.take(i + 1).last() == t[i as int]);
            assert(t[i as int] == (all@[i as int].0@, all@[i as int].1@));
            assert(has_value()(t[i as int]) == (all@[i as int].1@.len() > 0));
            if !all[i].1.as_str().is_empty() {
                pairs.push((all[i].0.clone(), all[i].1.clone()));
                assert(pair_texts(pairs@) =~= pair_texts(before).push(t[i as int]));
                proof { lemma_filter_take_step(t, i as int, has_value()); }
            } else {
                proof { lemma_filter_take_step(t, i as int, has_value()); }
            }
            i += 1;
        }
        assert(pair_texts(all@).take(all.len() as int) =~= pair_texts(all@));
        UrlParams { pairs }
    }

    /// The value of a parameter.
    pub fn get(&self, key: &str) -> (r: Option<String>)
        ensures
            opt_text(r) == lookup(self@, key@),
    {
        last_value(&self.pairs, key)
    }

    /// The value of a parameter read as a number (`str::parse::<usize>`).
    pub fn parse_usize(&self, key: &str) -> (r: Option<usize>)
        ensures
            r == (match lookup(self@, key@) {
                Some(v) => parse_unsigned(v),
                None => None,
            }),
    {
        match self.get(key) {
            Some(v) => parse_usize_text(v.as_str()),
            None => None,
        }
    }
}

/// Filtering a prefix one element longer.
proof fn lemma_filter_take_step<A>(s: Seq<A>, i: int, f: spec_fn(A) -> bool)
    requires
        0 <= i < s.len(),
    ensures
        s.take(i + 1).filter(f) == (if f(s[i]) {
            s.take(i).filter(f).push(s[i])
        } else {
            s.take(i).filter(f)
        }),
{
    reveal(Seq::filter);
    assert(s.take(i + 1).drop_last() =~= s.take(i));
}

/// `Option<String>` taken by its characters.
pub open spec fn opt_text(o: Option<String>) -> Option<Seq<char>> {
    match o {
        Some(s) => Some(s@),
        None => None,
    }
}

/// Whether a character is an ASCII decimal digit.
pub open spec fn is_digit(c: char) -> bool {
    48 <= (c as u32) <= 57
}

/// The number written by decimal digits.
pub open spec fn digits_value(d: Seq<char>) -> nat
    decreases d.len(),
{
    if d.len() == 0 {
        0
    } else {
        digits_value(d.drop_last()) * 10 + ((d.last() as u32) - 48) as nat
    }
}

/// The text of a number without its leading '+'.
pub open spec fn unsigned_digits(s: Seq<char>) -> Seq<char> {
    if s.len() > 0 && s[0] == '+' {
        s.drop_first()
    } else {
        s
    }
}

/// Every character is a decimal digit.
pub open spec fn all_digits(d: Seq<char>) -> bool {
    forall|i: int| 0 <= i < d.len() ==> is_digit(#[trigger] d[i])
}

/// `<usize as FromStr>::from_str`: an optional '+', then at least one decimal
/// digit, and a value that fits.
pub open spec fn parse_unsigned(s: Seq<char>) -> Option<usize> {
    let d = unsigned_digits(s);
    if d.len() == 0 || !all_digits(d) {
        None
    } else if digits_value(d) > usize::MAX {
        None
    } else {
        Some(digits_value(d) as usize)
    }
}

/// Reads a decimal number (`str::parse::<usize>`).
pub fn parse_usize_text(s: &str) -> (r: Option<usize>)
    ensures
        r == parse_unsigned(s@),
{
    let v = chars_of(s);
    let start: usize = if v.len() > 0 && v[0] == '+' {
        1
    } else {
        0
    };
    let ghost d = if v@.len() > 0 && v@[0] == '+' {
        v@.drop_first()
    } else {
        v@
    };
    assert(d =~= v@.skip(start as int));
    if start == v.len() {
        return None;
    }
    let mut i = start;
    let mut value: usize = 0;
    let mut overflow = false;
    while i < v.len()
        invariant
            start <= i <= v.len(),
            v@ == s@,
            d == v@.skip(start as int),
            d == unsigned_digits(s@),
            forall|j: int| start <= j < i ==> is_digit(#[trigger] v@[j]),
            !overflow ==> value == digits_value(d.take(i - start)),
            overflow ==> digits_value(d.take(i - start)) > usize::MAX,
        decreases v.len() - i,
    {
        let c = v[i];
        let code = c as u32;
        if code < 48 || code > 57 {
            assert(d[i - start] == v@[i as int]);
            assert(!is_digit(d[i - start]));
            assert(!all_digits(d));
            return None;
        }
        proof {
            assert(d.take(i + 1 - start).drop_last() =~= d.take(i - start));
            assert(d.take(i + 1 - start).last() == c);
        }
        let digit = (code - 48) as usize;
        if !overflow {
            match value.checked_mul(10) {
                Some(m) => match m.checked_add(digit) {
                    Some(n) => {
                        value = n;
                    },
                    None => {
                        overflow = true;
                    },
                },
                None => {
                    overflow = true;
                    assert(digits_value(d.take(i + 1 - start)) >= value * 10) by (nonlinear_arith)
                        requires
                            digits_value(d.take(i + 1 - start)) == value * 10 + digit,
                    ;
                },
            }
        } else {
            assert(digits_value(d.take(i + 1 - start)) >= digits_value(d.take(i - start)) * 10) by (nonlinear_arith)
                requires
                    digits_value(d.take(i + 1 - start)) == digits_value(d.take(i - start)) * 10 + digit,
            ;
            assert(digits_value(d.take(i - start)) * 10 >= digits_value(d.take(i - start))) by (nonlinear_arith);
        }
        i += 1;
    }
    assert(d.take(v.len() - start) =~= d);
    if overflow {
        None
    } else {
        Some(value)
    }
}

} // verus!
