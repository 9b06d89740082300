//! Character-level text utilities: conversions between strings and
//! character vectors, whitespace handling, searching, decimal parsing and
//! decimal formatting. Everything here is stated over `Seq<char>`.

use vstd::prelude::*;

verus! {

/// Relies on `core::char::from_u32`: it returns `Some` exactly for unicode
/// scalar values (below the surrogate range, or between the surrogates and
/// the maximum code point), and the returned character casts back to the
/// argument.
#[verifier::external_body]
pub fn char_from_u32(u: u32) -> (r: Option<char>)
    ensures
        r.is_some() <==> (u < 0xD800 || (0xE000 <= u && u < 0x110000)),
        r matches Some(c) ==> c as u32 == u,
{
    char::from_u32(u)
}

/// Relies on `String`'s `FromIterator<char>` implementation: collecting
/// characters yields the string of exactly those characters in order.
#[verifier::external_body]
pub fn chars_to_string(v: &Vec<char>) -> (r: String)
    ensures
        r@ == v@,
{
    v.iter().collect()
}

/// The characters of a string, as a vector.
pub fn to_chars(s: &str) -> (r: Vec<char>)
    ensures
        r@ == s@,
{
    let n: usize = s.unicode_len();
    let mut r: Vec<char> = Vec::new();
    let mut i: usize = 0;
    while i < n
        invariant
            n == s@.len(),
            i <= n,
            r@ == s@.subrange(0, i as int),
        decreases n - i,
    {
        let c = s.get_char(i);
        r.push(c);
        i = i + 1;
        proof {
            assert(r@ =~= s@.subrange(0, i as int));
        }
    }
    proof {
        assert(r@ =~= s@);
    }
    r
}

/// A copy of the characters from `from` (inclusive) to `to` (exclusive).
pub fn subchars(v: &Vec<char>, from: usize, to: usize) -> (r: Vec<char>)
    requires
        from <= to <= v@.len(),
    ensures
        r@ == v@.subrange(from as int, to as int),
{
    let mut r: Vec<char> = Vec::new();
    let mut i: usize = from;
    while i < to
        invariant
            from <= i <= to <= v@.len(),
            r@ == v@.subrange(from as int, i as int),
        decreases to - i,
    {
        let c = v[i];
        r.push(c);
        i = i + 1;
        proof {
            assert(r@ =~= v@.subrange(from as int, i as int));
        }
    }
    r
}

/// Whether two character vectors hold the same characters.
pub fn eq_chars(a: &Vec<char>, b: &Vec<char>) -> (r: bool)
    ensures
        r == (a@ == b@),
{
    if a.len() != b.len() {
        return false;
    }
    let mut i: usize = 0;
    while i < a.len()
        invariant
            a@.len() == b@.len(),
            i <= a@.len(),
            forall|j: int| 0 <= j < i as int ==> a@[j] == b@[j],
        decreases a@.len() - i,
    {
        if a[i] != b[i] {
            return false;
        }
        i = i + 1;
    }
    proof {
        assert(a@ =~= b@);
    }
    true
}

/// Whether `p` is a prefix of `s`.
pub open spec fn has_prefix(s: Seq<char>, p: Seq<char>) -> bool {
    p.len() <= s.len() && s.subrange(0, p.len() as int) == p
}

/// Whether the characters of `v` start with the literal `p`.
pub fn starts_with(v: &Vec<char>, p: &str) -> (r: bool)
    ensures
        r == has_prefix(v@, p@),
{
    let n: usize = p.unicode_len();
    if v.len() < n {
        proof {
            assert(!has_prefix(v@, p@));
        }
        return false;
    }
    let mut i: usize = 0;
    while i < n
        invariant
            n == p@.len(),
            n <= v@.len(),
            i <= n,
            forall|j: int| 0 <= j < i as int ==> v@[j] == p@[j],
        decreases n - i,
    {
        let c = p.get_char(i);
        if v[i] != c {
            proof {
                assert(v@.subrange(0, p@.len() as int)[i as int] != p@[i as int]);
            }
            return false;
        }
        i = i + 1;
    }
    proof {
        assert(v@.subrange(0, p@.len() as int) =~= p@);
    }
    true
}

/// The characters Rust's `char::is_whitespace` accepts: the Unicode
/// `White_Space` set.
pub open spec fn is_space(c: char) -> bool {
    ||| (0x09 <= c as u32 && c as u32 <= 0x0D)
    ||| c as u32 == 0x20
    ||| c as u32 == 0x85
    ||| c as u32 == 0xA0
    ||| c as u32 == 0x1680
    ||| (0x2000 <= c as u32 && c as u32 <= 0x200A)
    ||| c as u32 == 0x2028
    ||| c as u32 == 0x2029
    ||| c as u32 == 0x202F
    ||| c as u32 == 0x205F
    ||| c as u32 == 0x3000
}

/// Whether `c` is a Unicode whitespace character.
pub fn is_space_char(c: char) -> (r: bool)
    ensures
        r == is_space(c),
{
    let u = c as u32;
    (0x09 <= u && u <= 0x0D) || u == 0x20 || u == 0x85 || u == 0xA0 || u == 0x1680 || (0x2000 <= u
        && u <= 0x200A) || u == 0x2028 || u == 0x2029 || u == 0x202F || u == 0x205F || u == 0x3000
}

/// The first index at or after `i` holding a character that fails `pred`,
/// where `pred` selects the characters to skip; `s.len()` when none.
pub open spec fn skip_while(s: Seq<char>, i: int, pred: spec_fn(char) -> bool) -> int
    decreases s.len() - i,
{
    if i < 0 || i >= s.len() {
        s.len() as int
    } else if pred(s[i]) {
        skip_while(s, i + 1, pred)
    } else {
        i
    }
}

/// The index one past the last character at or before index `i - 1` that
/// fails `pred`, scanning backwards; `0` when every earlier character
/// passes `pred`.
pub open spec fn skip_while_back(s: Seq<char>, i: int, pred: spec_fn(char) -> bool) -> int
    decreases i,
{
    if i <= 0 || i > s.len() {
        0
    } else if pred(s[i - 1]) {
        skip_while_back(s, i - 1, pred)
    } else {
        i
    }
}

/// `s` with the characters selected by `pred` removed from both ends.
pub open spec fn spec_trim_by(s: Seq<char>, pred: spec_fn(char) -> bool) -> Seq<char> {
    let a = skip_while(s, 0, pred);
    let b = skip_while_back(s, s.len() as int, pred);
    if a >= b {
        Seq::empty()
    } else {
        s.subrange(a, b)
    }
}

/// The whitespace predicate as a value.
pub open spec fn space_pred() -> spec_fn(char) -> bool {
    |c: char| is_space(c)
}

/// The predicate selecting exactly `q`, as a value.
pub open spec fn char_pred(q: char) -> spec_fn(char) -> bool {
    |c: char| c == q
}

/// `s` with leading and trailing whitespace removed, as `str::trim` does.
pub open spec fn spec_trim(s: Seq<char>) -> Seq<char> {
    spec_trim_by(s, space_pred())
}

/// `s` with every leading and trailing `q` removed, as `str::trim_matches`
/// does.
pub open spec fn spec_trim_char(s: Seq<char>, q: char) -> Seq<char> {
    spec_trim_by(s, char_pred(q))
}

proof fn lemma_skip_while_bounds(s: Seq<char>, i: int, pred: spec_fn(char) -> bool)
    requires
        0 <= i <= s.len(),
    ensures
        i <= skip_while(s, i, pred) <= s.len(),
        forall|j: int| i <= j < skip_while(s, i, pred) ==> pred(s[j]),
        skip_while(s, i, pred) < s.len() ==> !pred(s[skip_while(s, i, pred)]),
    decreases s.len() - i,
{
    if i < s.len() && pred(s[i]) {
        lemma_skip_while_bounds(s, i + 1, pred);
    }
}

proof fn lemma_skip_while_back_bounds(s: Seq<char>, i: int, pred: spec_fn(char) -> bool)
    requires
        0 <= i <= s.len(),
    ensures
        0 <= skip_while_back(s, i, pred) <= i,
        forall|j: int| skip_while_back(s, i, pred) <= j < i ==> pred(s[j]),
        skip_while_back(s, i, pred) > 0 ==> !pred(s[skip_while_back(s, i, pred) - 1]),
    decreases i,
{
    if i > 0 && pred(s[i - 1]) {
        lemma_skip_while_back_bounds(s, i - 1, pred);
    }
}

/// `v` trimmed of the characters `mask` marks, where `mask` records, for
/// each character, whether the specification predicate selects it.
fn trim_with_mask(
    v: &Vec<char>,
    mask: &Vec<bool>,
    Ghost(pred): Ghost<spec_fn(char) -> bool>,
) -> (r: Vec<char>)
    requires
        mask@.len() == v@.len(),
        forall|j: int| 0 <= j < v@.len() ==> mask@[j] == pred(v@[j]),
    ensures
        r@ == spec_trim_by(v@, pred),
{
    let ghost s = v@;
    let mut a: usize = 0;
    while a < v.len() && mask[a]
        invariant
            v@ == s,
            mask@.len() == s.len(),
            forall|j: int| 0 <= j < s.len() ==> mask@[j] == pred(s[j]),
            0 <= a <= s.len(),
            forall|j: int| 0 <= j < a as int ==> pred(s[j]),
        decreases s.len() - a,
    {
        a = a + 1;
    }
    let mut b: usize = v.len();
    while b > a && mask[b - 1]
        invariant
            v@ == s,
            mask@.len() == s.len(),
            forall|j: int| 0 <= j < s.len() ==> mask@[j] == pred(s[j]),
            0 <= a <= b <= s.len(),
            forall|j: int| 0 <= j < a as int ==> pred(s[j]),
            a < s.len() ==> !pred(s[a as int]),
            forall|j: int| b as int <= j < s.len() ==> pred(s[j]),
        decreases b,
    {
        b = b - 1;
    }
    proof {
        lemma_skip_while_bounds(s, 0, pred);
        lemma_skip_while_back_bounds(s, s.len() as int, pred);
    }
    if a >= b {
        proof {
            let sa = skip_while(s, 0, pred);
            let sb = skip_while_back(s, s.len() as int, pred);
            if sa < sb {
                assert(!pred(s[sa]));
                assert(!pred(s[sb - 1]));
                assert(sa >= b || pred(s[sa]));
                assert(sb <= a || pred(s[sb - 1]));
            }
        }
        Vec::new()
    } else {
        proof {
            let sa = skip_while(s, 0, pred);
            let sb = skip_while_back(s, s.len() as int, pred);
            assert(!pred(s[a as int]));
            assert(!pred(s[b as int - 1]));
            assert(sa == a as int);
            assert(sb == b as int);
        }
        subchars(v, a, b)
    }
}

/// `v` with leading and trailing whitespace removed.
pub fn trim(v: &Vec<char>) -> (r: Vec<char>)
    ensures
        r@ == spec_trim(v@),
{
    let mut mask: Vec<bool> = Vec::new();
    let mut k: usize = 0;
    while k < v.len()
        invariant
            k <= v@.len(),
            mask@.len() == k as int,
            forall|j: int| 0 <= j < k as int ==> mask@[j] == is_space(v@[j]),
        decreases v@.len() - k,
    {
        let c = v[k];
        let m = is_space_char(c);
        mask.push(m);
        k = k + 1;
    }
    proof {
        assert(forall|j: int| 0 <= j < v@.len() ==> mask@[j] == space_pred()(v@[j]));
    }
    trim_with_mask(v, &mask, Ghost(space_pred()))
}

/// `v` with every leading and trailing `q` removed.
pub fn trim_char(v: &Vec<char>, q: char) -> (r: Vec<char>)
    ensures
        r@ == spec_trim_char(v@, q),
{
    let mut mask: Vec<bool> = Vec::new();
    let mut k: usize = 0;
    while k < v.len()
        invariant
            k <= v@.len(),
            mask@.len() == k as int,
            forall|j: int| 0 <= j < k as int ==> mask@[j] == (v@[j] == q),
        decreases v@.len() - k,
    {
        let m = v[k] == q;
        mask.push(m);
        k = k + 1;
    }
    proof {
        assert(forall|j: int| 0 <= j < v@.len() ==> mask@[j] == char_pred(q)(v@[j]));
    }
    trim_with_mask(v, &mask, Ghost(char_pred(q)))
}

/// The first index at or after `i` where `c` occurs; `None` if it does not.
pub open spec fn spec_find(s: Seq<char>, c: char, i: int) -> Option<int>
    decreases s.len() - i,
{
    if i < 0 || i >= s.len() {
        None
    } else if s[i] == c {
        Some(i)
    } else {
        spec_find(s, c, i + 1)
    }
}

/// Searches `v` for the first occurrence of `c` at or after `from`.
pub fn find_char(v: &Vec<char>, c: char, from: usize) -> (r: Option<usize>)
    requires
        from <= v@.len(),
    ensures
        r matches Some(i) ==> spec_find(v@, c, from as int) == Some(i as int) && from <= i
            < v@.len() && v@[i as int] == c,
        r.is_none() ==> spec_find(v@, c, from as int).is_none(),
{
    let mut i: usize = from;
    while i < v.len()
        invariant
            from <= i <= v@.len(),
            spec_find(v@, c, from as int) == spec_find(v@, c, i as int),
        decreases v@.len() - i,
    {
        if v[i] == c {
            return Some(i);
        }
        i = i + 1;
    }
    None
}

/// The predicate selecting everything but whitespace, as a value.
pub open spec fn nonspace_pred() -> spec_fn(char) -> bool {
    |c: char| !is_space(c)
}

/// The first whitespace-separated token of `s`, as
/// `str::split_whitespace().next()` yields it.
pub open spec fn spec_first_token(s: Seq<char>) -> Option<Seq<char>> {
    let a = skip_while(s, 0, space_pred());
    if a >= s.len() {
        None
    } else {
        Some(s.subrange(a, skip_while(s, a, nonspace_pred())))
    }
}

/// The last whitespace-separated token of `s`, as
/// `str::split_whitespace().last()` yields it.
pub open spec fn spec_last_token(s: Seq<char>) -> Option<Seq<char>> {
    let b = skip_while_back(s, s.len() as int, space_pred());
    if b <= 0 {
        None
    } else {
        Some(s.subrange(skip_while_back(s, b, nonspace_pred()), b))
    }
}

/// The first whitespace-separated token of `v`.
pub fn first_token(v: &Vec<char>) -> (r: Option<Vec<char>>)
    ensures
        match r {
            Some(t) => spec_first_token(v@) == Some(t@),
            None => spec_first_token(v@).is_none(),
        },
{
    let ghost s = v@;
    let mut a: usize = 0;
    while a < v.len() && is_space_char(v[a])
        invariant
            0 <= a <= s.len(),
            v@ == s,
            skip_while(s, 0, space_pred()) == skip_while(s, a as int, space_pred()),
        decreases s.len() - a,
    {
        a = a + 1;
    }
    proof {
        assert(skip_while(s, a as int, space_pred()) == a as int);
    }
    if a == v.len() {
        return None;
    }
    let mut b: usize = a;
    while b < v.len() && !is_space_char(v[b])
        invariant
            a <= b <= s.len(),
            v@ == s,
            skip_while(s, a as int, nonspace_pred()) == skip_while(s, b as int, nonspace_pred()),
        decreases s.len() - b,
    {
        b = b + 1;
    }
    proof {
        assert(skip_while(s, b as int, nonspace_pred()) == b as int);
    }
    Some(subchars(v, a, b))
}

/// The last whitespace-separated token of `v`.
pub fn last_token(v: &Vec<char>) -> (r: Option<Vec<char>>)
    ensures
        match r {
            Some(t) => spec_last_token(v@) == Some(t@),
            None => spec_last_token(v@).is_none(),
        },
{
    let ghost s = v@;
    let mut b: usize = v.len();
    while b > 0 && is_space_char(v[b - 1])
        invariant
            0 <= b <= s.len(),
            v@ == s,
            skip_while_back(s, s.len() as int, space_pred()) == skip_while_back(
                s,
                b as int,
                space_pred(),
            ),
        decreases b,
    {
        b = b - 1;
    }
    proof {
        assert(skip_while_back(s, b as int, space_pred()) == b as int);
    }
    if b == 0 {
        return None;
    }
    let mut a: usize = b;
    while a > 0 && !is_space_char(v[a - 1])
        invariant
            0 <= a <= b <= s.len(),
            v@ == s,
            skip_while_back(s, b as int, nonspace_pred()) == skip_while_back(
                s,
                a as int,
                nonspace_pred(),
            ),
        decreases a,
    {
        a = a - 1;
    }
    proof {
        assert(skip_while_back(s, a as int, nonspace_pred()) == a as int);
    }
    Some(subchars(v, a, b))
}

/// What `spec_find` finds is in range, holds `c`, and is the first such
/// index.
pub proof fn lemma_spec_find(s: Seq<char>, c: char, i: int)
    requires
        0 <= i <= s.len(),
    ensures
        match spec_find(s, c, i) {
            Some(j) => i <= j < s.len() && s[j] == c && (forall|k: int|
                i <= k < j ==> s[k] != c),
            None => forall|k: int| i <= k < s.len() ==> s[k] != c,
        },
    decreases s.len() - i,
{
    if i < s.len() && s[i] != c {
        lemma_spec_find(s, c, i + 1);
    }
}

/// `s` cut at every occurrence of `c`, as `str::split` yields the pieces.
pub open spec fn spec_split(s: Seq<char>, c: char) -> Seq<Seq<char>>
    decreases s.len(),
    via spec_split_decreases
{
    match spec_find(s, c, 0) {
        None => seq![s],
        Some(i) => seq![s.subrange(0, i)] + spec_split(s.subrange(i + 1, s.len() as int), c),
    }
}

#[via_fn]
proof fn spec_split_decreases(s: Seq<char>, c: char) {
    lemma_spec_find(s, c, 0);
}

/// Splits `v` at every occurrence of `c`.
pub fn split_chars(v: &Vec<char>, c: char) -> (r: Vec<Vec<char>>)
    ensures
        r.deep_view() == spec_split(v@, c),
{
    let mut pieces: Vec<Vec<char>> = Vec::new();
    let mut rest: Vec<char> = subchars(v, 0, v.len());
    proof {
        assert(rest@ =~= v@);
        assert(pieces.deep_view() + spec_split(rest@, c) =~~= spec_split(v@, c));
    }
    loop
        invariant
            spec_split(v@, c) == pieces.deep_view() + spec_split(rest@, c),
        decreases rest@.len(),
    {
        proof {
            lemma_spec_find(rest@, c, 0);
        }
        let ghost pv = pieces.deep_view();
        let ghost restv = rest@;
        let found = find_char(&rest, c, 0);
        match found {
            Some(i) => {
                let piece = subchars(&rest, 0, i);
                let n = rest.len();
                let next = subchars(&rest, i + 1, n);
                pieces.push(piece);
                rest = next;
                proof {
                    assert(pieces.deep_view() =~~= pv.push(restv.subrange(0, i as int)));
                    assert(spec_split(restv, c) == seq![restv.subrange(0, i as int)] + spec_split(
                        rest@,
                        c,
                    ));
                    assert(pv + spec_split(restv, c) =~~= pieces.deep_view() + spec_split(
                        rest@,
                        c,
                    ));
                }
            },
            None => {
                pieces.push(rest);
                proof {
                    assert(pieces.deep_view() =~~= pv.push(restv));
                    assert(spec_split(restv, c) == seq![restv]);
                    assert(pieces.deep_view() =~~= pv + spec_split(restv, c));
                    assert(pieces.deep_view() =~~= spec_split(v@, c));
                }
                return pieces;
            },
        }
    }
}

/// Whether `c` is a decimal digit.
pub open spec fn is_digit(c: char) -> bool {
    48 <= c as u32 && c as u32 <= 57
}

/// What Rust's `u32::from_str` accepts: as for `u64`, with the value
/// required to fit in a `u32`.
pub open spec fn spec_parse_u32(s: Seq<char>) -> Option<u32> {
    match spec_parse_u64(s) {
        Some(v) => if v <= u32::MAX {
            Some(v as u32)
        } else {
            None
        },
        None => None,
    }
}

/// Parses the digits of `v` as the value of a `u32`.
pub fn parse_u32(v: &Vec<char>) -> (r: Option<u32>)
    ensures
        r == spec_parse_u32(v@),
{
    match parse_u64(v) {
        Some(value) => if value <= u32::MAX as u64 {
            Some(value as u32)
        } else {
            None
        },
        None => None,
    }
}

/// How a relative name is joined to a base directory: an absolute name
/// stands alone; otherwise the name is appended behind a single separator.
pub open spec fn spec_join_path(base: Seq<char>, name: Seq<char>) -> Seq<char> {
    if name.len() >= 1 && name[0] == '/' {
        name
    } else if base.len() == 0 {
        name
    } else if base.last() == '/' || base.last() == '\\' {
        base + name
    } else {
        base + seq!['/'] + name
    }
}

/// Joins `name` to the directory `base`.
pub fn join_path(base: &Vec<char>, name: &Vec<char>) -> (r: Vec<char>)
    ensures
        r@ == spec_join_path(base@, name@),
{
    proof {
        assert(name@.subrange(0, name@.len() as int) =~= name@);
        assert(base@.subrange(0, base@.len() as int) =~= base@);
    }
    if name.len() >= 1 && name[0] == '/' {
        return subchars(name, 0, name.len());
    }
    if base.len() == 0 {
        return subchars(name, 0, name.len());
    }
    let mut r = subchars(base, 0, base.len());
    let lastc = base[base.len() - 1];
    if !(lastc == '/' || lastc == '\\') {
        r.push('/');
        proof {
            assert(r@ =~= base@ + seq!['/']);
        }
    }
    push_chars(&mut r, name);
    r
}

/// The numeric value of a digit character; zero for anything else.
pub open spec fn digit_val(c: char) -> nat {
    if is_digit(c) {
        (c as u32 - 48) as nat
    } else {
        0
    }
}

/// The numeric value of a sequence of decimal digits, most significant
/// first.
pub open spec fn dec_val(s: Seq<char>) -> nat
    decreases s.len(),
{
    if s.len() == 0 {
        0
    } else {
        dec_val(s.drop_last()) * 10 + digit_val(s.last())
    }
}

/// The value of a pure digit string: one or more decimal digits whose value
/// fits in a `u64`; anything else is rejected.
pub open spec fn parse_digits(d: Seq<char>) -> Option<u64> {
    if d.len() == 0 {
        None
    } else if exists|j: int| 0 <= j < d.len() && !is_digit(d[j]) {
        None
    } else if dec_val(d) > u64::MAX {
        None
    } else {
        Some(dec_val(d) as u64)
    }
}

/// What Rust's `u64::from_str` accepts: an optional leading plus sign, then
/// one or more decimal digits whose value fits; anything else is rejected.
pub open spec fn spec_parse_u64(s: Seq<char>) -> Option<u64> {
    if s.len() >= 1 && s[0] == '+' {
        parse_digits(s.subrange(1, s.len() as int))
    } else {
        parse_digits(s)
    }
}

proof fn lemma_dec_val_step(s: Seq<char>, i: int)
    requires
        0 <= i < s.len(),
    ensures
        dec_val(s.subrange(0, i + 1)) == dec_val(s.subrange(0, i)) * 10 + digit_val(s[i]),
{
    let p = s.subrange(0, i + 1);
    assert(p.drop_last() =~= s.subrange(0, i));
    assert(p.last() == s[i]);
}

/// Parses the digits of `v` as the value of a `u64`, as `str::parse::<u64>`
/// does: an optional `+`, then digits, rejecting overflow, empty input and
/// anything that is not a digit.
pub fn parse_u64(v: &Vec<char>) -> (r: Option<u64>)
    ensures
        r == spec_parse_u64(v@),
{
    let start: usize = if v.len() >= 1 && v[0] == '+' {
        1
    } else {
        0
    };
    let ghost d = if v@.len() >= 1 && v@[0] == '+' {
        v@.subrange(1, v@.len() as int)
    } else {
        v@
    };
    proof {
        assert(d =~= v@.subrange(start as int, v@.len() as int));
    }
    if v.len() == start {
        return None;
    }
    let mut acc: u64 = 0;
    let mut i: usize = start;
    while i < v.len()
        invariant
            start <= i <= v@.len(),
            start <= 1,
            start < v@.len(),
            (start == 1) <==> (v@.len() >= 1 && v@[0] == '+'),
            d == v@.subrange(start as int, v@.len() as int),
            d == (if v@.len() >= 1 && v@[0] == '+' {
                v@.subrange(1, v@.len() as int)
            } else {
                v@
            }),
            forall|j: int| 0 <= j < (i - start) as int ==> is_digit(d[j]),
            acc as nat == dec_val(d.subrange(0, (i - start) as int)),
        decreases v@.len() - i,
    {
        let c = v[i];
        let u = c as u32;
        if !(48 <= u && u <= 57) {
            proof {
                assert(d[(i - start) as int] == v@[i as int]);
                assert(((i - start) as int) < d.len() && !is_digit(d[(i - start) as int]));
                assert(exists|j: int| 0 <= j < d.len() && !is_digit(d[j]));
            }
            return None;
        }
        let dig: u64 = (u - 48) as u64;
        proof {
            lemma_dec_val_step(d, (i - start) as int);
            assert(d[(i - start) as int] == v@[i as int]);
        }
        if acc > (u64::MAX - dig) / 10 {
            proof {
                let k = (i - start) as int + 1;
                let m = u64::MAX as int;
                let dg = dig as int;
                let q = (m - dg) / 10;
                vstd::arithmetic::div_mod::lemma_fundamental_div_mod(m - dg, 10);
                assert(acc as int * 10 + dg > m) by (nonlinear_arith)
                    requires
                        acc as int >= q + 1,
                        m - dg == 10 * q + (m - dg) % 10,
                        0 <= (m - dg) % 10 < 10,
                ;
                assert(dec_val(d.subrange(0, k)) > u64::MAX);
                lemma_dec_val_monotone(d, k);
            }
            return None;
        }
        acc = acc * 10 + dig;
        i = i + 1;
    }
    proof {
        assert(d.subrange(0, (i - start) as int) =~= d);
    }
    Some(acc)
}

/// Extending a digit sequence never shrinks its value.
proof fn lemma_dec_val_monotone(s: Seq<char>, k: int)
    requires
        0 <= k <= s.len(),
    ensures
        dec_val(s.subrange(0, k)) <= dec_val(s),
    decreases s.len() - k,
{
    if k < s.len() {
        lemma_dec_val_step(s, k);
        assert(dec_val(s.subrange(0, k)) * 10 >= dec_val(s.subrange(0, k))) by (nonlinear_arith);
        lemma_dec_val_monotone(s, k + 1);
    } else {
        assert(s.subrange(0, k) =~= s);
    }
}

/// The digit character for a value below ten.
pub open spec fn digit_char(d: nat) -> char {
    ((48 + d) as u32) as char
}

/// The decimal digits of `n`, most significant first, without leading
/// zeros (a single zero for zero).
pub open spec fn dec_digits(n: nat) -> Seq<char>
    decreases n,
{
    if n < 10 {
        seq![digit_char(n)]
    } else {
        dec_digits(n / 10).push(digit_char(n % 10))
    }
}

fn digit_char_exec(d: u32) -> (r: char)
    requires
        d < 10,
    ensures
        r == digit_char(d as nat),
{
    let o = char_from_u32(48 + d);
    proof {
        assert(o.is_some());
    }
    let c = o.unwrap();
    proof {
        vstd::utf8::char_u32_cast(c, (48 + d) as u32);
    }
    c
}

/// Writes `n` in decimal, as `{}` formatting does.
pub fn u64_to_dec(n: u64) -> (r: Vec<char>)
    ensures
        r@ == dec_digits(n as nat),
    decreases n,
{
    if n < 10 {
        let c = digit_char_exec(n as u32);
        let mut r: Vec<char> = Vec::new();
        r.push(c);
        proof {
            assert(r@ =~= dec_digits(n as nat));
        }
        r
    } else {
        let mut r = u64_to_dec(n / 10);
        let c = digit_char_exec((n % 10) as u32);
        r.push(c);
        r
    }
}

/// The decimal form of `n` padded with zeros on the left to at least two
/// characters, as `{:02}` formatting does.
pub open spec fn dec_pad2(n: nat) -> Seq<char> {
    if n < 10 {
        seq!['0'] + dec_digits(n)
    } else {
        dec_digits(n)
    }
}

/// Writes `n` in decimal padded to at least two digits.
pub fn u64_to_dec_pad2(n: u64) -> (r: Vec<char>)
    ensures
        r@ == dec_pad2(n as nat),
{
    if n < 10 {
        let mut r: Vec<char> = Vec::new();
        r.push('0');
        let c = digit_char_exec(n as u32);
        r.push(c);
        proof {
            assert(r@ =~= seq!['0'] + dec_digits(n as nat));
        }
        r
    } else {
        u64_to_dec(n)
    }
}

/// Appends the characters of `b` to `a`.
pub fn push_chars(a: &mut Vec<char>, b: &Vec<char>)
    ensures
        final(a)@ == old(a)@ + b@,
{
    let mut i: usize = 0;
    while i < b.len()
        invariant
            i <= b@.len(),
            a@ == old(a)@ + b@.subrange(0, i as int),
        decreases b@.len() - i,
    {
        let c = b[i];
        a.push(c);
        i = i + 1;
        proof {
            assert(a@ =~= old(a)@ + b@.subrange(0, i as int));
        }
    }
    proof {
        assert(a@ =~= old(a)@ + b@);
    }
}

/// Every character a number writes is a digit, and at least one is
/// written.
pub proof fn lemma_dec_digits_are_digits(n: nat)
    ensures
        dec_digits(n).len() >= 1,
        forall|i: int| 0 <= i < dec_digits(n).len() ==> is_digit(#[trigger] dec_digits(n)[i]),
    decreases n,
{
    if n < 10 {
        assert(is_digit(digit_char(n)));
    } else {
        lemma_dec_digits_are_digits(n / 10);
        vstd::arithmetic::div_mod::lemma_mod_bound(n as int, 10);
        assert(is_digit(digit_char((n % 10) as nat)));
        assert(forall|i: int|
            0 <= i < dec_digits(n).len() - 1 ==> dec_digits(n)[i] == dec_digits(n / 10)[i]);
    }
}

/// Reading back the digits a number writes yields the number.
pub proof fn lemma_dec_val_of_digits(n: nat)
    ensures
        dec_val(dec_digits(n)) == n,
    decreases n,
{
    if n < 10 {
        let s = dec_digits(n);
        assert(s =~= seq![digit_char(n)]);
        assert(s.drop_last() =~= Seq::<char>::empty());
        assert(dec_val(s.drop_last()) == 0);
        assert(dec_val(s) == dec_val(s.drop_last()) * 10 + digit_val(s.last()));
        assert(digit_val(digit_char(n)) == n);
    } else {
        lemma_dec_val_of_digits(n / 10);
        vstd::arithmetic::div_mod::lemma_mod_bound(n as int, 10);
        let s = dec_digits(n);
        assert(s.len() >= 1) by {
            lemma_dec_digits_are_digits(n);
        }
        assert(s.drop_last() =~= dec_digits(n / 10));
        assert(s.last() == digit_char((n % 10) as nat));
        assert(dec_val(s) == dec_val(s.drop_last()) * 10 + digit_val(s.last()));
        assert(digit_val(digit_char((n % 10) as nat)) == n % 10);
        vstd::arithmetic::div_mod::lemma_fundamental_div_mod(n as int, 10);
    }
}

/// The padded form writes only digits, at least two of them, and reads
/// back as the number; two numbers never share a padded form.
pub proof fn lemma_dec_pad2_facts(n: nat)
    ensures
        dec_pad2(n).len() >= 2,
        forall|i: int| 0 <= i < dec_pad2(n).len() ==> is_digit(#[trigger] dec_pad2(n)[i]),
        dec_val(dec_pad2(n)) == n,
{
    lemma_dec_digits_are_digits(n);
    lemma_dec_val_of_digits(n);
    if n < 10 {
        let s = dec_pad2(n);
        assert(s =~= seq!['0'] + dec_digits(n));
        assert(s.len() == 2);
        assert(s.drop_last() =~= seq!['0']);
        assert(seq!['0'].drop_last() =~= Seq::<char>::empty());
        assert(is_digit('0'));
        assert(digit_val('0') == 0);
        assert(dec_val(seq!['0']) == dec_val(Seq::<char>::empty()) * 10 + digit_val('0'));
        assert(s.last() == digit_char(n));
        assert(dec_val(s) == dec_val(s.drop_last()) * 10 + digit_val(s.last()));
        assert(digit_val(digit_char(n)) == n);
        assert(forall|i: int| 0 <= i < s.len() ==> is_digit(#[trigger] s[i])) by {
            assert(s[0] == '0');
            assert(s[1] == digit_char(n));
            assert(is_digit(digit_char(n)));
        }
    } else {
        let s = dec_pad2(n);
        assert(s == dec_digits(n));
        assert(dec_digits(n) == dec_digits(n / 10).push(digit_char((n % 10) as nat)));
        lemma_dec_digits_are_digits(n / 10);
        assert(s.len() >= 2);
    }
}

} // verus!
